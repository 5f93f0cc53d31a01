//! The workspace: panels laid out in a grid, the console below them, and the
//! pointer-driven resize of the console.
use vstd::prelude::*;
use vstd::string::*;
use crate::activity_panel::{welcome_panel, Activity, ActivityPanel, ActivityPanelView};

verus! {

/// Height of the console when the workspace opens, and after a collapse is
/// released.
pub const DEFAULT_CONSOLE_HEIGHT: u32 = 200;

/// Thickness of a resizer bar.
pub const RESIZER_PX: u32 = 3;

/// A console dragged to this height or lower collapses to nothing.
pub const COLLAPSE_AT_MOST: u32 = 75;

/// A console dragged to a height above the collapse band and up to this one
/// keeps the height it had.
pub const HOLD_AT_MOST: u32 = 150;

/// One sizing token of a grid template.
#[derive(Clone, Copy, PartialEq, Eq, Structural, Debug)]
pub enum ColumnType {
    Auto,
    Fr,
}

/// Why a workspace operation did nothing.
#[derive(Clone, Copy, PartialEq, Eq, Structural, Debug)]
pub enum WorkspaceError {
    /// No panel has the key that the operation looked for.
    NotFound,
}

/// A request to the workspace: open a file in the panel with the given key,
/// or in the last active panel.
#[derive(Clone, Copy, PartialEq, Eq, Structural, Debug)]
pub enum WorkspaceCommand {
    OpenFile(Option<u128>, usize),
}

/// An entry of the panel row: a panel of tabs, or the bar between two.
pub enum GridPanel {
    Panel(ActivityPanel),
    Resizer,
}

pub enum GridPanelView {
    Panel(ActivityPanelView),
    Resizer,
}

impl View for GridPanel {
    type V = GridPanelView;

    open spec fn view(&self) -> GridPanelView {
        match self {
            GridPanel::Panel(p) => GridPanelView::Panel(p@),
            GridPanel::Resizer => GridPanelView::Resizer,
        }
    }
}

pub struct Workspace {
    /// The panel row in display order, each entry under a key.
    pub activity_panel_list: Vec<(u128, GridPanel)>,
    pub console_height: u32,
    pub resize_active: bool,
    pub resizer_hover: bool,
    pub last_active_panel: u128,
    pub cols: Vec<ColumnType>,
}

pub struct WorkspaceView {
    pub panels: Seq<(u128, GridPanelView)>,
    pub console_height: u32,
    pub resize_active: bool,
    pub resizer_hover: bool,
    pub last_active_panel: u128,
    pub cols: Seq<ColumnType>,
}

impl View for Workspace {
    type V = WorkspaceView;

    open spec fn view(&self) -> WorkspaceView {
        WorkspaceView {
            panels: self.activity_panel_list@.map_values(|e: (u128, GridPanel)| (e.0, e.1@)),
            console_height: self.console_height,
            resize_active: self.resize_active,
            resizer_hover: self.resizer_hover,
            last_active_panel: self.last_active_panel,
            cols: self.cols@,
        }
    }
}

/// The console height that a pointer at `y` asks for in a window `window`
/// high, before the bands apply; never below zero.
pub open spec fn requested_height(window: u32, y: i32) -> int {
    let top = if y < 0 {
        0
    } else {
        y as int
    };
    let h = window as int - top - RESIZER_PX as int;
    if h < 0 {
        0
    } else {
        h
    }
}

/// The console height after the pointer moved to `y` during a resize: up to
/// the collapse threshold it collapses to zero, within the hold band it
/// stays `current`, above it follows the pointer.
pub open spec fn console_height_for(window: u32, y: i32, current: u32) -> u32 {
    let h = requested_height(window, y);
    if h <= COLLAPSE_AT_MOST as int {
        0
    } else if h <= HOLD_AT_MOST as int {
        current
    } else {
        h as u32
    }
}

/// During a resize, with the pointer at `y` in a window `window` high, the
/// console gets height zero where `window - y - RESIZER_PX` is at most 75,
/// keeps its height where that difference lies from 76 to 150, and takes the
/// difference above that.
pub proof fn lemma_resize_clamp(window: u32, y: i32, current: u32)
    requires
        y >= 0,
    ensures
        ({
            let d = window as int - y as int - RESIZER_PX as int;
            &&& d <= 75 ==> console_height_for(window, y, current) == 0
            &&& 76 <= d <= 150 ==> console_height_for(window, y, current) == current
            &&& d > 150 ==> console_height_for(window, y, current) as int == d
        }),
{
}

impl WorkspaceView {
    /// Every panel of the row is well formed.
    pub open spec fn wf(self) -> bool {
        forall|i: int|
            0 <= i < self.panels.len() && (#[trigger] self.panels[i]).1 is Panel ==> self.panels[i].1->Panel_0.wf()
    }

    /// Entry `i` is a panel (not a resizer) with key `key`.
    pub open spec fn is_panel_of(self, i: int, key: u128) -> bool {
        0 <= i < self.panels.len() && self.panels[i].0 == key && self.panels[i].1 is Panel
    }

    /// Entry `i` is the first panel with key `key`.
    pub open spec fn first_panel_of(self, i: int, key: u128) -> bool {
        self.is_panel_of(i, key) && forall|j: int| 0 <= j < i ==> !self.is_panel_of(j, key)
    }

    pub open spec fn has_panel(self, key: u128) -> bool {
        exists|i: int| self.first_panel_of(i, key)
    }

    /// The position of the first panel with key `key`.
    pub open spec fn panel_index(self, key: u128) -> int {
        choose|i: int| self.first_panel_of(i, key)
    }

    /// The workspace after the panel at `i` was split: a resizer and a new
    /// panel holding `activity` follow it under key `id`, the grid gains an
    /// auto column and a fractional one, and the new panel is the last
    /// active.
    pub open spec fn after_split(self, i: int, activity: Activity, id: u128) -> WorkspaceView {
        WorkspaceView {
            panels: self.panels.insert(i + 1, (id, GridPanelView::Resizer)).insert(
                i + 2,
                (
                    id,
                    GridPanelView::Panel(
                        ActivityPanelView { activities: seq![activity], active: Some(activity) },
                    ),
                ),
            ),
            console_height: self.console_height,
            resize_active: self.resize_active,
            resizer_hover: self.resizer_hover,
            last_active_panel: id,
            cols: self.cols.push(ColumnType::Auto).push(ColumnType::Fr),
        }
    }

    /// The workspace after `file` was opened in the panel at `i`.
    pub open spec fn after_open_in(self, i: int, file: usize) -> WorkspaceView {
        WorkspaceView {
            panels: self.panels.update(
                i,
                (self.panels[i].0, GridPanelView::Panel(self.panels[i].1->Panel_0.after_open(file))),
            ),
            ..self
        }
    }

    /// The key of the panel that a command addressed to `panel` goes to.
    pub open spec fn addressee(self, panel: Option<u128>) -> u128 {
        match panel {
            Some(k) => k,
            None => self.last_active_panel,
        }
    }
}

proof fn lemma_first_unique(w: WorkspaceView, i: int, key: u128)
    requires
        w.first_panel_of(i, key),
    ensures
        w.has_panel(key),
        w.panel_index(key) == i,
{
    let j = w.panel_index(key);
    assert(w.first_panel_of(j, key));
    if j < i {
        assert(w.is_panel_of(j, key));
    } else if i < j {
        assert(w.is_panel_of(i, key));
    }
}

/// Relies on uuid's `Uuid::new_v4`, read back with `Uuid::as_u128`: a random
/// version-4 identifier as one number. Nothing is promised of its value.
#[verifier::external_body]
pub(crate) fn fresh_panel_id() -> (r: u128) {
    uuid::Uuid::new_v4().as_u128()
}

impl Workspace {
    /// A workspace with one welcome panel under key `id`, the console at its
    /// default height and one fractional column.
    pub fn new(id: u128) -> (r: Workspace)
        ensures
            r@.wf(),
            r@.panels.len() == 1,
            r@.panels[0].0 == id,
            r@.panels[0].1 == GridPanelView::Panel(welcome_panel()),
            r@.console_height == DEFAULT_CONSOLE_HEIGHT,
            !r@.resize_active,
            !r@.resizer_hover,
            r@.last_active_panel == id,
            r@.cols == seq![ColumnType::Fr],
    {
        let panel = ActivityPanel::default();
        let ghost pv = panel@;
        let r = Workspace {
            activity_panel_list: vec![(id, GridPanel::Panel(panel))],
            console_height: DEFAULT_CONSOLE_HEIGHT,
            resize_active: false,
            resizer_hover: false,
            last_active_panel: id,
            cols: vec![ColumnType::Fr],
        };
        assert(r@.cols =~= seq![ColumnType::Fr]);
        assert(r@.panels[0].1 == GridPanelView::Panel(pv));
        r
    }

    /// A workspace as `new` makes it, under a fresh random key.
    pub fn default() -> (r: Workspace)
        ensures
            r@.wf(),
            r@.panels.len() == 1,
            r@.panels[0].0 == r@.last_active_panel,
            r@.panels[0].1 == GridPanelView::Panel(welcome_panel()),
            r@.console_height == DEFAULT_CONSOLE_HEIGHT,
            !r@.resize_active,
            !r@.resizer_hover,
            r@.cols == seq![ColumnType::Fr],
    {
        Workspace::new(fresh_panel_id())
    }

    /// The position of the first panel (not resizer) with key `key`.
    pub fn find_panel(&self, key: u128) -> (r: Option<usize>)
        ensures
            match r {
                Some(i) => self@.first_panel_of(i as int, key),
                None => !self@.has_panel(key) && forall|i: int| !self@.is_panel_of(i, key),
            },
    {
        let mut i: usize = 0;
        while i < self.activity_panel_list.len()
            invariant
                0 <= i <= self@.panels.len(),
                self@.panels.len() == self.activity_panel_list@.len(),
                forall|j: int| 0 <= j < i ==> !self@.is_panel_of(j, key),
            decreases self@.panels.len() - i,
        {
            let entry = &self.activity_panel_list[i];
            let is_panel = match entry.1 {
                GridPanel::Panel(_) => true,
                GridPanel::Resizer => false,
            };
            if entry.0 == key && is_panel {
                return Some(i);
            }
            i = i + 1;
        }
        None
    }

    /// Splits the last active panel: a resizer and a new panel holding
    /// `activity` follow it under key `id`, two columns are added, and the
    /// new panel becomes the last active. `NotFound`, with nothing changed,
    /// where no panel has the last active key.
    pub fn split_panel_with_id(&mut self, activity: &Activity, id: u128) -> (r: Result<
        (),
        WorkspaceError,
    >)
        requires
            old(self)@.wf(),
        ensures
            final(self)@.wf(),
            r is Ok <==> old(self)@.has_panel(old(self)@.last_active_panel),
            r is Ok ==> final(self)@ == old(self)@.after_split(
                old(self)@.panel_index(old(self)@.last_active_panel),
                *activity,
                id,
            ),
            r is Err ==> r == Err::<(), WorkspaceError>(WorkspaceError::NotFound) && final(self)@
                == old(self)@,
    {
        let ghost w = self@;
        match self.find_panel(self.last_active_panel) {
            None => Err(WorkspaceError::NotFound),
            Some(i) => {
                proof {
                    lemma_first_unique(w, i as int, w.last_active_panel);
                }
                let panel = ActivityPanel::new(activity);
                let ghost pv = panel@;
                self.cols.push(ColumnType::Auto);
                self.cols.push(ColumnType::Fr);
                let len = self.activity_panel_list.len();
                assert(i < len);
                self.activity_panel_list.insert(i + 1, (id, GridPanel::Resizer));
                let n = self.activity_panel_list.len();
                assert(i + 2 <= n);
                self.activity_panel_list.insert(i + 2, (id, GridPanel::Panel(panel)));
                self.last_active_panel = id;
                proof {
                    let t = w.after_split(i as int, *activity, id);
                    assert(pv == ActivityPanelView { activities: seq![*activity], active: Some(*activity) });
                    assert(self@.panels =~= t.panels);
                    assert(self@.cols =~= t.cols);
                    assert forall|k: int|
                        0 <= k < self@.panels.len() && (#[trigger] self@.panels[k]).1 is Panel implies self@.panels[k].1->Panel_0.wf() by {
                        if k < i + 1 {
                            assert(self@.panels[k] == w.panels[k]);
                        } else if k > i + 2 {
                            assert(self@.panels[k] == w.panels[k - 2]);
                        }
                    }
                }
                Ok(())
            },
        }
    }

    /// Opens `file` in the panel the command is addressed to: the panel with
    /// the given key, or else the last active one. Where no panel has that
    /// key nothing happens and the result is false.
    pub fn handle(&mut self, command: WorkspaceCommand) -> (r: bool)
        requires
            old(self)@.wf(),
        ensures
            final(self)@.wf(),
            match command {
                WorkspaceCommand::OpenFile(panel, file) => {
                    let key = old(self)@.addressee(panel);
                    &&& r == old(self)@.has_panel(key)
                    &&& r ==> final(self)@ == old(self)@.after_open_in(
                        old(self)@.panel_index(key),
                        file,
                    )
                    &&& !r ==> final(self)@ == old(self)@
                },
            },
    {
        let ghost w = self@;
        match command {
            WorkspaceCommand::OpenFile(panel, file) => {
                let key = match panel {
                    Some(k) => k,
                    None => self.last_active_panel,
                };
                match self.find_panel(key) {
                    None => false,
                    Some(i) => {
                        proof {
                            lemma_first_unique(w, i as int, key);
                            assert(w.panels[i as int].1->Panel_0.wf());
                        }
                        match &mut self.activity_panel_list[i].1 {
                            GridPanel::Panel(p) => p.open_file(file),
                            GridPanel::Resizer => {},
                        }
                        proof {
                            let t = w.after_open_in(i as int, file);
                            assert(self@.panels =~= t.panels);
                        }
                        true
                    },
                }
            },
        }
    }

    /// A pointer press on the console's resizer starts a resize.
    pub fn pointer_down(&mut self)
        ensures
            final(self)@ == (WorkspaceView { resize_active: true, ..old(self)@ }),
    {
        self.resize_active = true;
    }

    /// The pointer is released anywhere: the resize ends, and a collapsed
    /// console comes back at its default height.
    pub fn pointer_up(&mut self)
        ensures
            final(self)@ == (WorkspaceView {
                resize_active: false,
                console_height: if old(self)@.console_height == 0 {
                    DEFAULT_CONSOLE_HEIGHT
                } else {
                    old(self)@.console_height
                },
                ..old(self)@
            }),
    {
        self.resize_active = false;
        if self.console_height == 0 {
            self.console_height = DEFAULT_CONSOLE_HEIGHT;
        }
    }

    /// The pointer enters or leaves the resizer.
    pub fn set_resizer_hover(&mut self, hover: bool)
        ensures
            final(self)@ == (WorkspaceView { resizer_hover: hover, ..old(self)@ }),
    {
        self.resizer_hover = hover;
    }

    /// The pointer moved to height `y` in a window `window_height` high.
    /// During a resize the console takes the height of the bands; otherwise
    /// nothing changes.
    pub fn pointer_move(&mut self, window_height: u32, y: i32)
        ensures
            final(self)@ == (WorkspaceView {
                console_height: if old(self)@.resize_active {
                    console_height_for(window_height, y, old(self)@.console_height)
                } else {
                    old(self)@.console_height
                },
                ..old(self)@
            }),
    {
        if self.resize_active {
            self.console_height = console_height_after(window_height, y, self.console_height);
        }
    }
}

/// The console height after the pointer moved to `y` during a resize, in a
/// window `window_height` high.
pub fn console_height_after(window_height: u32, y: i32, current: u32) -> (r: u32)
    ensures
        r == console_height_for(window_height, y, current),
{
    let top: u32 = if y < 0 {
        0
    } else {
        y as u32
    };
    let requested: u32 = window_height.saturating_sub(top.saturating_add(RESIZER_PX));
    if requested <= COLLAPSE_AT_MOST {
        0
    } else if requested <= HOLD_AT_MOST {
        current
    } else {
        requested
    }
}

/// Height left to the panels in a window `window_height` high, below which
/// sit a resizer and a console `console_height` high; never below zero.
pub fn activity_panel_height(window_height: u32, console_height: u32) -> (r: u32)
    ensures
        r as int == if window_height as int - console_height as int - RESIZER_PX as int > 0 {
            window_height as int - console_height as int - RESIZER_PX as int
        } else {
            0
        },
{
    let taken: u64 = console_height as u64 + RESIZER_PX as u64;
    if window_height as u64 > taken {
        (window_height as u64 - taken) as u32
    } else {
        0
    }
}

/// Width left to the workspace beside a sidebar `sidebar_width` wide; never
/// below zero.
pub fn workspace_width(window_width: u32, sidebar_width: u32) -> (r: u32)
    ensures
        r as int == if window_width > sidebar_width {
            window_width - sidebar_width
        } else {
            0
        },
{
    window_width.saturating_sub(sidebar_width)
}

/// The text of one sizing token.
pub open spec fn token_text(c: ColumnType) -> Seq<char> {
    match c {
        ColumnType::Auto => "auto"@,
        ColumnType::Fr => "1fr"@,
    }
}

/// The grid template of `cols`: the tokens joined by single spaces.
pub open spec fn template_of(cols: Seq<ColumnType>) -> Seq<char>
    decreases cols.len(),
{
    if cols.len() == 0 {
        seq![]
    } else if cols.len() == 1 {
        token_text(cols[0])
    } else {
        template_of(cols.drop_last()) + " "@ + token_text(cols.last())
    }
}

/// The grid template of `cols`, such as "auto auto 1fr".
pub fn grid_template(cols: &Vec<ColumnType>) -> (r: String)
    ensures
        r@ == template_of(cols@),
{
    let mut r = String::new();
    let mut i: usize = 0;
    while i < cols.len()
        invariant
            0 <= i <= cols@.len(),
            r@ == template_of(cols@.subrange(0, i as int)),
        decreases cols@.len() - i,
    {
        if i > 0 {
            r.append(" ");
        }
        match cols[i] {
            ColumnType::Auto => r.append("auto"),
            ColumnType::Fr => r.append("1fr"),
        }
        proof {
            let s = cols@.subrange(0, i + 1);
            assert(s.drop_last() =~= cols@.subrange(0, i as int));
            assert(s.last() == cols@[i as int]);
            if i == 0 {
                assert(r@ =~= template_of(s));
            }
        }
        i = i + 1;
    }
    assert(cols@.subrange(0, cols@.len() as int) =~= cols@);
    r
}

} // verus!
