//! The explorer side bar: which directories are folded, the context menu
//! open on one of its rows, and what a press on a row does.
use vstd::prelude::*;
use crate::contextmenu::ContextMenu;
use crate::interaction::Interaction;
use crate::listing::sort_by_name;
use crate::vfs::{Target, Vfs, VfsView, ROOT};
use crate::workspace::WorkspaceCommand;

verus! {

proof fn lemma_push_contains(s: Seq<usize>, v: usize)
    ensures
        forall|x: usize| s.push(v).contains(x) <==> (s.contains(x) || x == v),
{
    assert forall|x: usize| s.push(v).contains(x) <==> (s.contains(x) || x == v) by {
        if s.push(v).contains(x) {
            let a = choose|a: int| 0 <= a < s.push(v).len() && s.push(v)[a] == x;
            if a < s.len() {
                assert(s[a] == x);
            }
        }
        if s.contains(x) {
            let a = choose|a: int| 0 <= a < s.len() && s[a] == x;
            assert(s.push(v)[a] == x);
        }
        if x == v {
            assert(s.push(v)[s.len() as int] == x);
        }
    }
}

pub struct Explorer {
    /// The context menu open on a row, if any.
    pub context_menu: Option<ContextMenu>,
    /// Indices of the folded directories; every other directory shows its
    /// contents.
    pub collapsed: Vec<usize>,
}

/// The search side bar.
pub struct Search {}

impl Search {
    pub fn tooltip(&self) -> (r: &'static str)
        ensures
            r@ == "Search"@,
    {
        "Search"
    }
}

impl Explorer {
    /// No menu open and every directory unfolded.
    pub fn default() -> (r: Explorer)
        ensures
            r.context_menu is None,
            r.collapsed@ == Seq::<usize>::empty(),
    {
        Explorer { context_menu: None, collapsed: Vec::new() }
    }

    pub fn tooltip(&self) -> (r: &'static str)
        ensures
            r@ == "Explorer"@,
    {
        "Explorer"
    }

    /// A right click on the row of `target` at `position` opens a fresh menu
    /// there, replacing any menu already open.
    pub fn open_context_menu(&mut self, position: (i32, i32), target: Target)
        ensures
            final(self).context_menu == Some(ContextMenu { position, target }),
            final(self).collapsed@ == old(self).collapsed@,
    {
        self.context_menu = Some(ContextMenu::new(position, target));
    }

    /// A click anywhere in the document closes the menu.
    pub fn dismiss_context_menu(&mut self)
        ensures
            final(self).context_menu is None,
            final(self).collapsed@ == old(self).collapsed@,
    {
        self.context_menu = None;
    }

    /// Directory `d` shows its contents.
    pub fn is_expanded(&self, d: usize) -> (r: bool)
        ensures
            r == !self.collapsed@.contains(d),
    {
        let mut i: usize = 0;
        while i < self.collapsed.len()
            invariant
                0 <= i <= self.collapsed@.len(),
                forall|j: int| 0 <= j < i ==> self.collapsed@[j] != d,
            decreases self.collapsed@.len() - i,
        {
            if self.collapsed[i] == d {
                return false;
            }
            i = i + 1;
        }
        true
    }

    /// Folds directory `d` where it is unfolded, and unfolds it where it is
    /// folded.
    pub fn toggle(&mut self, d: usize)
        ensures
            final(self).collapsed@.contains(d) == !old(self).collapsed@.contains(d),
            forall|e: usize| e != d ==> (final(self).collapsed@.contains(e) == old(self).collapsed@.contains(e)),
            final(self).context_menu == old(self).context_menu,
    {
        if self.is_expanded(d) {
            proof {
                lemma_push_contains(self.collapsed@, d);
            }
            self.collapsed.push(d);
        } else {
            self.remove_all(d);
        }
    }

    /// Takes every occurrence of `d` out of the folded list.
    fn remove_all(&mut self, d: usize)
        ensures
            !final(self).collapsed@.contains(d),
            forall|e: usize| e != d ==> (final(self).collapsed@.contains(e) == old(self).collapsed@.contains(e)),
            final(self).context_menu == old(self).context_menu,
    {
        let mut kept: Vec<usize> = Vec::new();
        let mut i: usize = 0;
        while i < self.collapsed.len()
            invariant
                self.collapsed@ == old(self).collapsed@,
                self.context_menu == old(self).context_menu,
                0 <= i <= self.collapsed@.len(),
                !kept@.contains(d),
                forall|e: usize| e != d ==> (kept@.contains(e) == self.collapsed@.subrange(0, i as int).contains(e)),
            decreases self.collapsed@.len() - i,
        {
            let e = self.collapsed[i];
            let ghost sub = self.collapsed@.subrange(0, i as int);
            let ghost sub1 = self.collapsed@.subrange(0, i + 1);
            let ghost k0 = kept@;
            proof {
                assert(sub1 =~= sub.push(e));
                lemma_push_contains(sub, e);
                lemma_push_contains(k0, e);
            }
            if e != d {
                kept.push(e);
            }
            proof {
                assert forall|x: usize| x != d implies (kept@.contains(x) == sub1.contains(x)) by {
                    assert(k0.contains(x) == sub.contains(x));
                }
            }
            i = i + 1;
        }
        assert(self.collapsed@.subrange(0, self.collapsed@.len() as int) =~= self.collapsed@);
        self.collapsed = kept;
    }

    /// A press on the row of directory `d`: folds or unfolds it, where the
    /// press is allowed (left button, no rename, no drag). Tells whether it
    /// did.
    pub fn press_directory(&mut self, interaction: &Interaction, d: usize, left_button: bool) -> (r:
        bool)
        ensures
            r == (left_button && interaction.rename is None && interaction.dragged is None),
            r ==> final(self).collapsed@.contains(d) == !old(self).collapsed@.contains(d),
            forall|e: usize| e != d ==> (final(self).collapsed@.contains(e) == old(self).collapsed@.contains(e)),
            !r ==> final(self).collapsed@ == old(self).collapsed@,
            final(self).context_menu == old(self).context_menu,
    {
        if interaction.click_allowed(left_button) {
            self.toggle(d);
            true
        } else {
            false
        }
    }

    /// A press on the row of file `f`: asks the last active panel to open
    /// it, where the press is allowed (left button, no rename, no drag).
    pub fn press_file(&self, interaction: &Interaction, f: usize, left_button: bool) -> (r: Option<
        WorkspaceCommand,
    >)
        ensures
            r == (if left_button && interaction.rename is None && interaction.dragged is None {
                Some(WorkspaceCommand::OpenFile(None, f))
            } else {
                None
            }),
    {
        if interaction.click_allowed(left_button) {
            Some(WorkspaceCommand::OpenFile(None, f))
        } else {
            None
        }
    }
}

/// One line of the explorer: an entity, indented `depth` levels.
#[derive(Clone, Copy, PartialEq, Eq, Structural, Debug)]
pub struct Row {
    pub target: Target,
    pub depth: usize,
}

/// The rows of the files `fs`, all at `depth`.
pub open spec fn file_rows(fs: Seq<usize>, depth: usize) -> Seq<Row> {
    fs.map_values(|f: usize| Row { target: Target::File(f), depth })
}

/// The rows inside directory `d`, whose own row sits at `depth - 1`: its
/// child directories in display order, each followed by its own contents
/// where it is unfolded, then its files in display order. `fuel` bounds the
/// levels walked.
pub open spec fn contents_rows(
    v: VfsView,
    collapsed: Seq<usize>,
    d: usize,
    depth: usize,
    fuel: nat,
) -> Seq<Row>
    decreases fuel, 0nat,
{
    if fuel == 0 {
        seq![]
    } else {
        dir_rows(
            v,
            collapsed,
            sort_by_name(v, Target::Directory(0), v.dirs[d as int].directories),
            depth,
            (fuel - 1) as nat,
        ) + file_rows(sort_by_name(v, Target::File(0), v.dirs[d as int].files), depth)
    }
}

/// The rows of the directories `ds`, each at `depth` and followed by its
/// contents where it is unfolded.
pub open spec fn dir_rows(v: VfsView, collapsed: Seq<usize>, ds: Seq<usize>, depth: usize, fuel: nat) -> Seq<Row>
    decreases fuel, ds.len(),
{
    if ds.len() == 0 {
        seq![]
    } else {
        seq![Row { target: Target::Directory(ds[0]), depth }] + (if collapsed.contains(ds[0]) {
            seq![]
        } else {
            contents_rows(v, collapsed, ds[0], (depth + 1) as usize, fuel)
        }) + dir_rows(v, collapsed, ds.drop_first(), depth, fuel)
    }
}

impl Explorer {
    fn push_contents(&self, vfs: &Vfs, d: usize, depth: usize, fuel: usize, out: &mut Vec<Row>)
        requires
            vfs@.wf(),
            d < vfs@.dirs.len(),
            depth + fuel < usize::MAX,
        ensures
            final(out)@ == old(out)@ + contents_rows(vfs@, self.collapsed@, d, depth, fuel as nat),
        decreases fuel, 0nat,
    {
        if fuel == 0 {
            assert(out@ =~= out@ + Seq::<Row>::empty());
            return;
        }
        let ghost v = vfs@;
        let ghost start = out@;
        let ds = vfs.sorted_directories(d);
        proof {
            assert forall|k: int| 0 <= k < ds@.len() implies ds@[k] < v.dirs.len() by {
                assert(ds@.contains(ds@[k]));
                assert(v.holds(d as int, Target::Directory(ds@[k])));
            }
            assert(ds@.subrange(0, ds@.len() as int) =~= ds@);
        }
        self.push_dirs(vfs, &ds, 0, depth, fuel - 1, out);
        let ghost mid = out@;
        let fs = vfs.sorted_files(d);
        let mut k: usize = 0;
        while k < fs.len()
            invariant
                0 <= k <= fs@.len(),
                out@ == mid + file_rows(fs@.subrange(0, k as int), depth),
            decreases fs@.len() - k,
        {
            out.push(Row { target: Target::File(fs[k]), depth });
            proof {
                assert(fs@.subrange(0, k + 1) =~= fs@.subrange(0, k as int).push(fs@[k as int]));
                assert(file_rows(fs@.subrange(0, k + 1), depth) =~= file_rows(
                    fs@.subrange(0, k as int),
                    depth,
                ).push(Row { target: Target::File(fs@[k as int]), depth }));
            }
            k = k + 1;
        }
        proof {
            assert(fs@.subrange(0, fs@.len() as int) =~= fs@);
            assert(out@ =~= start + contents_rows(v, self.collapsed@, d, depth, fuel as nat));
        }
    }

    fn push_dirs(
        &self,
        vfs: &Vfs,
        ds: &Vec<usize>,
        i: usize,
        depth: usize,
        fuel: usize,
        out: &mut Vec<Row>,
    )
        requires
            vfs@.wf(),
            i <= ds@.len(),
            forall|k: int| i <= k < ds@.len() ==> ds@[k] < vfs@.dirs.len(),
            depth + fuel + 1 < usize::MAX,
        ensures
            final(out)@ == old(out)@ + dir_rows(
                vfs@,
                self.collapsed@,
                ds@.subrange(i as int, ds@.len() as int),
                depth,
                fuel as nat,
            ),
        decreases fuel, ds@.len() - i,
    {
        let ghost start = out@;
        let ghost rest = ds@.subrange(i as int, ds@.len() as int);
        if i == ds.len() {
            assert(rest =~= Seq::<usize>::empty());
            assert(out@ =~= start + Seq::<Row>::empty());
            return;
        }
        let c = ds[i];
        out.push(Row { target: Target::Directory(c), depth });
        let ghost after_row = out@;
        if self.is_expanded(c) {
            self.push_contents(vfs, c, depth + 1, fuel, out);
        }
        let ghost after_contents = out@;
        proof {
            assert(rest[0] == c);
            assert(rest.drop_first() =~= ds@.subrange(i + 1, ds@.len() as int));
        }
        self.push_dirs(vfs, ds, i + 1, depth, fuel, out);
        proof {
            let inner = if self.collapsed@.contains(c) {
                Seq::<Row>::empty()
            } else {
                contents_rows(vfs@, self.collapsed@, c, (depth + 1) as usize, fuel as nat)
            };
            assert(after_contents =~= start + seq![Row { target: Target::Directory(c), depth }] + inner);
            assert(out@ =~= start + dir_rows(vfs@, self.collapsed@, rest, depth, fuel as nat));
        }
    }

    /// The rows the explorer shows, top to bottom: the root, then, where it
    /// is unfolded, everything inside it; inside a directory its child
    /// directories come first, each followed by its own contents where it is
    /// unfolded, then its files, each group sorted by name, one level deeper
    /// than the directory.
    pub fn visible_rows(&self, vfs: &Vfs) -> (r: Vec<Row>)
        requires
            vfs@.wf(),
            vfs@.dirs.len() < usize::MAX - 2,
        ensures
            r@ == seq![Row { target: Target::Directory(ROOT), depth: 0 }] + (if self.collapsed@.contains(ROOT) {
                Seq::<Row>::empty()
            } else {
                contents_rows(vfs@, self.collapsed@, ROOT, 1, vfs@.dirs.len())
            }),
    {
        let mut out: Vec<Row> = Vec::new();
        out.push(Row { target: Target::Directory(ROOT), depth: 0 });
        if self.is_expanded(ROOT) {
            let fuel = vfs.dirs.len();
            self.push_contents(vfs, ROOT, 1, fuel, &mut out);
        }
        proof {
            assert(out@ =~= seq![Row { target: Target::Directory(ROOT), depth: 0 }] + (if self.collapsed@.contains(ROOT) {
                Seq::<Row>::empty()
            } else {
                contents_rows(vfs@, self.collapsed@, ROOT, 1, vfs@.dirs.len())
            }));
        }
        out
    }
}

} // verus!
