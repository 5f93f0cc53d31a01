//! One panel of tabs: an ordered list of open activities and the active one.
//! A file has at most one editor per panel; closing the active tab hands the
//! selection to the first tab left.
use vstd::prelude::*;

verus! {

/// An editor bound to the file with arena index `file`.
#[derive(Clone, Copy, PartialEq, Eq, Structural, Debug)]
pub struct Editor {
    pub file: usize,
}

/// The screen shown before any file is opened.
#[derive(Clone, Copy, PartialEq, Eq, Structural, Debug)]
pub struct Welcome {}

/// The content of one tab.
#[derive(Clone, Copy, PartialEq, Eq, Structural, Debug)]
pub enum Activity {
    Editor(Editor),
    Welcome(Welcome),
}

/// A request addressed to one panel.
#[derive(Clone, Copy, PartialEq, Eq, Structural, Debug)]
pub enum ActivityPanelCommand {
    OpenFile(usize),
}

impl Editor {
    pub fn new(file: usize) -> (r: Editor)
        ensures
            r.file == file,
    {
        Editor { file }
    }
}

impl Welcome {
    pub fn new() -> (r: Welcome) {
        Welcome {}
    }
}

impl Activity {
    /// Tells whether this is an editor of `file`.
    pub fn edits(&self, file: usize) -> (r: bool)
        ensures
            r == (*self == Activity::Editor(Editor { file })),
    {
        match self {
            Activity::Editor(e) => e.file == file,
            Activity::Welcome(_) => false,
        }
    }

    /// The tab can be closed: editors can, the welcome screen cannot.
    pub fn closable(&self) -> (r: bool)
        ensures
            r == (*self is Editor),
    {
        match self {
            Activity::Editor(_) => true,
            Activity::Welcome(_) => false,
        }
    }
}

/// The editor activity of `file`.
pub open spec fn editor_of(file: usize) -> Activity {
    Activity::Editor(Editor { file })
}

/// A panel whose one tab, active, is the welcome screen.
pub open spec fn welcome_panel() -> ActivityPanelView {
    ActivityPanelView {
        activities: seq![Activity::Welcome(Welcome {})],
        active: Some(Activity::Welcome(Welcome {})),
    }
}

pub struct ActivityPanelView {
    pub activities: Seq<Activity>,
    pub active: Option<Activity>,
}

impl ActivityPanelView {
    /// Each activity appears once; something is active exactly when a tab is
    /// open, and the active activity is one of the tabs.
    pub open spec fn wf(self) -> bool {
        &&& self.activities.no_duplicates()
        &&& (self.active is None <==> self.activities.len() == 0)
        &&& (self.active is Some ==> self.activities.contains(self.active->0))
    }

    /// The panel after `file` was opened in it: its editor becomes active,
    /// and is appended only where the panel has none yet.
    pub open spec fn after_open(self, file: usize) -> ActivityPanelView {
        ActivityPanelView {
            activities: if self.activities.contains(editor_of(file)) {
                self.activities
            } else {
                self.activities.push(editor_of(file))
            },
            active: Some(editor_of(file)),
        }
    }

    /// The panel after `n` requests to open `file`.
    pub open spec fn after_opens(self, file: usize, n: nat) -> ActivityPanelView
        decreases n,
    {
        if n == 0 {
            self
        } else {
            self.after_opens(file, (n - 1) as nat).after_open(file)
        }
    }

    /// The panel after the tab of `a` was closed: the tab goes; where it was
    /// the active one, the first tab left becomes active, or none.
    pub open spec fn after_close(self, a: Activity) -> ActivityPanelView {
        let rest = if self.activities.contains(a) {
            self.activities.remove(self.activities.index_of(a))
        } else {
            self.activities
        };
        ActivityPanelView {
            activities: rest,
            active: if self.active == Some(a) {
                if rest.len() == 0 {
                    None
                } else {
                    Some(rest[0])
                }
            } else {
                self.active
            },
        }
    }
}

pub struct ActivityPanel {
    pub activities: Vec<Activity>,
    pub active_activity: Option<Activity>,
}

impl View for ActivityPanel {
    type V = ActivityPanelView;

    open spec fn view(&self) -> ActivityPanelView {
        ActivityPanelView { activities: self.activities@, active: self.active_activity }
    }
}

proof fn lemma_remove_keeps_others(s: Seq<Activity>, i: int)
    requires
        s.no_duplicates(),
        0 <= i < s.len(),
    ensures
        s.remove(i).no_duplicates(),
        forall|x: Activity| s.remove(i).contains(x) <==> (s.contains(x) && x != s[i]),
{
    let r = s.remove(i);
    assert forall|a: int, b: int| 0 <= a < r.len() && 0 <= b < r.len() && a != b implies r[a]
        != r[b] by {
        let oa = if a < i { a } else { a + 1 };
        let ob = if b < i { b } else { b + 1 };
        assert(r[a] == s[oa]);
        assert(r[b] == s[ob]);
    }
    assert forall|x: Activity| r.contains(x) <==> (s.contains(x) && x != s[i]) by {
        if r.contains(x) {
            let a = choose|a: int| 0 <= a < r.len() && r[a] == x;
            let oa = if a < i { a } else { a + 1 };
            assert(s[oa] == x);
        }
        if s.contains(x) && x != s[i] {
            let a = choose|a: int| 0 <= a < s.len() && s[a] == x;
            if a < i {
                assert(r[a] == x);
            } else {
                assert(r[a - 1] == x);
            }
        }
    }
}

proof fn lemma_after_open_wf(p: ActivityPanelView, file: usize)
    requires
        p.wf(),
    ensures
        p.after_open(file).wf(),
        p.after_open(file).activities.contains(editor_of(file)),
{
    let s = p.activities;
    let e = editor_of(file);
    if !s.contains(e) {
        let r = s.push(e);
        assert(r[s.len() as int] == e);
        assert forall|a: int, b: int| 0 <= a < r.len() && 0 <= b < r.len() && a != b implies r[a]
            != r[b] by {
            if a == s.len() {
                assert(s[b] == r[b]);
            } else if b == s.len() {
                assert(s[a] == r[a]);
            }
        }
    }
}

/// However many times one file is opened in a panel, the panel ends with
/// exactly one editor for it, that editor is active, and the result is the
/// same as opening it once.
pub proof fn lemma_open_file_dedup(p: ActivityPanelView, file: usize, n: nat)
    requires
        p.wf(),
        n >= 1,
    ensures
        p.after_opens(file, n).wf(),
        p.after_opens(file, n).activities.contains(editor_of(file)),
        p.after_opens(file, n).active == Some(editor_of(file)),
        p.after_opens(file, n) == p.after_open(file),
    decreases n,
{
    if n == 1 {
        assert(p.after_opens(file, 0) == p);
        lemma_after_open_wf(p, file);
    } else {
        lemma_open_file_dedup(p, file, (n - 1) as nat);
        let q = p.after_opens(file, (n - 1) as nat);
        lemma_after_open_wf(q, file);
        assert(q.after_open(file) == q);
    }
}

proof fn lemma_after_close_wf(p: ActivityPanelView, a: Activity)
    requires
        p.wf(),
    ensures
        p.after_close(a).wf(),
        !p.after_close(a).activities.contains(a),
        forall|x: Activity| x != a ==> (p.after_close(a).activities.contains(x) <==> p.activities.contains(x)),
{
    let s = p.activities;
    if s.contains(a) {
        let i = s.index_of(a);
        lemma_remove_keeps_others(s, i);
        let rest = s.remove(i);
        if rest.len() > 0 {
            assert(rest.contains(rest[0]));
        }
        if p.active is Some && p.active != Some(a) {
            assert(rest.contains(p.active->0));
        }
    }
}

/// Closing the active tab of a panel with two tabs makes the tab left
/// active; closing any tab that is not the active one leaves the active
/// activity as it was.
pub proof fn lemma_close_reassigns(p: ActivityPanelView, a: Activity)
    requires
        p.wf(),
    ensures
        p.after_close(a).wf(),
        p.active == Some(a) && p.activities.len() == 2 ==> p.after_close(a).activities.len() == 1
            && p.after_close(a).active == Some(p.after_close(a).activities[0])
            && p.after_close(a).activities[0] == (if p.activities[0] == a {
            p.activities[1]
        } else {
            p.activities[0]
        }),
        p.active != Some(a) ==> p.after_close(a).active == p.active,
{
    lemma_after_close_wf(p, a);
    let s = p.activities;
    let i = s.index_of(a);
    if s.len() == 2 && p.active == Some(a) {
        assert(s[i] == a);
        if s[0] == a {
            assert(i == 0) by {
                if i != 0 {
                    assert(s[0] == s[i]);
                }
            }
        } else {
            assert(i == 1);
        }
    }
}

impl ActivityPanel {
    /// A panel holding the welcome screen, which is active.
    pub fn default() -> (r: ActivityPanel)
        ensures
            r@.wf(),
            r@ == welcome_panel(),
    {
        let welcome = Activity::Welcome(Welcome::new());
        let r = ActivityPanel { activities: vec![welcome], active_activity: Some(welcome) };
        assert(r@.activities =~= seq![Activity::Welcome(Welcome {})]);
        assert(r@.activities[0] == welcome);
        r
    }

    /// A panel holding `activity` alone, which is active.
    pub fn new(activity: &Activity) -> (r: ActivityPanel)
        ensures
            r@.wf(),
            r@.activities == seq![*activity],
            r@.active == Some(*activity),
    {
        let r = ActivityPanel { activities: vec![*activity], active_activity: Some(*activity) };
        assert(r@.activities =~= seq![*activity]);
        assert(r@.activities[0] == *activity);
        r
    }

    /// Opens `file`: the panel's editor of it becomes active, made and
    /// appended at the end only where the panel has none yet.
    pub fn open_file(&mut self, file: usize)
        requires
            old(self)@.wf(),
        ensures
            final(self)@ == old(self)@.after_open(file),
            final(self)@.wf(),
    {
        proof {
            lemma_after_open_wf(self@, file);
        }
        let mut i: usize = 0;
        while i < self.activities.len()
            invariant
                self@ == old(self)@,
                old(self)@.after_open(file).wf(),
                0 <= i <= self.activities@.len(),
                forall|j: int| 0 <= j < i ==> self.activities@[j] != editor_of(file),
            decreases self.activities@.len() - i,
        {
            if self.activities[i].edits(file) {
                assert(self.activities@.contains(editor_of(file)));
                self.active_activity = Some(self.activities[i]);
                return;
            }
            i = i + 1;
        }
        let editor = Activity::Editor(Editor::new(file));
        self.activities.push(editor);
        self.active_activity = Some(editor);
    }

    /// Carries out one request of the panel's queue.
    pub fn handle(&mut self, command: ActivityPanelCommand)
        requires
            old(self)@.wf(),
        ensures
            final(self)@.wf(),
            match command {
                ActivityPanelCommand::OpenFile(file) => final(self)@ == old(self)@.after_open(file),
            },
    {
        match command {
            ActivityPanelCommand::OpenFile(file) => self.open_file(file),
        }
    }

    /// A pointer press on the tab of `activity` makes it active; an activity
    /// that has no tab here changes nothing.
    pub fn select(&mut self, activity: Activity)
        requires
            old(self)@.wf(),
        ensures
            final(self)@.wf(),
            final(self)@.activities == old(self)@.activities,
            final(self)@.active == (if old(self)@.activities.contains(activity) {
                Some(activity)
            } else {
                old(self)@.active
            }),
    {
        if self.position_of(activity).is_some() {
            self.active_activity = Some(activity);
        }
    }

    /// The position of the tab of `activity`.
    pub fn position_of(&self, activity: Activity) -> (r: Option<usize>)
        ensures
            match r {
                Some(i) => i < self@.activities.len() && self@.activities[i as int] == activity,
                None => !self@.activities.contains(activity),
            },
    {
        let mut i: usize = 0;
        while i < self.activities.len()
            invariant
                0 <= i <= self.activities@.len(),
                forall|j: int| 0 <= j < i ==> self.activities@[j] != activity,
            decreases self.activities@.len() - i,
        {
            if self.activities[i] == activity {
                return Some(i);
            }
            i = i + 1;
        }
        None
    }

    /// Closes the tab of `activity`. Where it was active, the first tab left
    /// becomes active, or none where no tab is left; otherwise the active
    /// activity stays.
    pub fn close_activity(&mut self, activity: Activity)
        requires
            old(self)@.wf(),
        ensures
            final(self)@ == old(self)@.after_close(activity),
            final(self)@.wf(),
    {
        let ghost p = self@;
        proof {
            lemma_after_close_wf(p, activity);
        }
        match self.position_of(activity) {
            Some(i) => {
                proof {
                    let j = p.activities.index_of(activity);
                    assert(0 <= j < p.activities.len() && p.activities[j] == activity);
                    assert(j == i);
                }
                self.activities.remove(i);
            },
            None => {},
        }
        if self.active_activity == Some(activity) {
            if self.activities.len() == 0 {
                self.active_activity = None;
            } else {
                self.active_activity = Some(self.activities[0]);
            }
        }
        assert(self@.activities == p.after_close(activity).activities);
    }

    /// The number of open tabs.
    pub fn activity_count(&self) -> (r: usize)
        ensures
            r == self@.activities.len(),
    {
        self.activities.len()
    }
}

} // verus!
