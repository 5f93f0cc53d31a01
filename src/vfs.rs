//! The in-memory file system: directories and files live in two arenas and are
//! referred to by their index there, so identity never depends on a name.
use vstd::prelude::*;

verus! {

/// Index of the root directory.
pub const ROOT: usize = 0;

/// Permission bits of a newly created file.
pub const DEFAULT_FILE_MODE: u32 = 0o664;

/// Permission bits of a newly created directory.
pub const DEFAULT_DIRECTORY_MODE: u32 = 0o775;

/// A reference to one entity of the file system: what is renamed, dragged or
/// right-clicked.
#[derive(Clone, Copy, PartialEq, Eq, Structural, Debug)]
pub enum Target {
    File(usize),
    Directory(usize),
}

impl Target {
    pub open spec fn id(self) -> usize {
        match self {
            Target::File(f) => f,
            Target::Directory(d) => d,
        }
    }
}

/// The failures of a structural change. Both leave the tree as it was.
#[derive(Clone, Copy, PartialEq, Eq, Structural, Debug)]
pub enum VfsError {
    /// The entity is not where the operation looked for it.
    NotFound,
    /// The entity already has a parent.
    AlreadyPlaced,
}

pub struct File {
    pub name: String,
    pub mode: u32,
    pub data: Vec<u8>,
}

pub struct Directory {
    pub name: String,
    pub mode: u32,
    /// Indices of the child directories, in insertion order.
    pub directories: Vec<usize>,
    /// Indices of the child files, in insertion order.
    pub files: Vec<usize>,
}

pub struct FileView {
    pub name: Seq<char>,
    pub mode: u32,
    pub data: Seq<u8>,
}

pub struct DirView {
    pub name: Seq<char>,
    pub mode: u32,
    pub directories: Seq<usize>,
    pub files: Seq<usize>,
}

impl View for File {
    type V = FileView;

    open spec fn view(&self) -> FileView {
        FileView { name: self.name@, mode: self.mode, data: self.data@ }
    }
}

impl View for Directory {
    type V = DirView;

    open spec fn view(&self) -> DirView {
        DirView {
            name: self.name@,
            mode: self.mode,
            directories: self.directories@,
            files: self.files@,
        }
    }
}

/// The whole tree as mathematical values.
pub struct VfsView {
    pub dirs: Seq<DirView>,
    pub files: Seq<FileView>,
}

impl VfsView {
    /// The collection of directory `p` that holds entities of the kind of `t`.
    pub open spec fn entries(self, p: int, t: Target) -> Seq<usize> {
        match t {
            Target::Directory(_) => self.dirs[p].directories,
            Target::File(_) => self.dirs[p].files,
        }
    }

    /// `t` names an entity of one of the arenas.
    pub open spec fn valid(self, t: Target) -> bool {
        match t {
            Target::Directory(d) => d < self.dirs.len(),
            Target::File(f) => f < self.files.len(),
        }
    }

    /// Directory `p` holds `t` in its collection.
    pub open spec fn holds(self, p: int, t: Target) -> bool {
        0 <= p < self.dirs.len() && self.entries(p, t).contains(t.id())
    }

    pub open spec fn is_held(self, t: Target) -> bool {
        exists|p: int| self.holds(p, t)
    }

    /// Every entity sits in at most one collection, at most once, and the root
    /// sits in none.
    pub open spec fn wf(self) -> bool {
        &&& self.dirs.len() > 0
        &&& forall|p: int, t: Target|
            0 <= p < self.dirs.len() ==> (#[trigger] self.entries(p, t)).no_duplicates()
        &&& forall|p: int, t: Target|
            #[trigger] self.holds(p, t) ==> self.valid(t) && t != Target::Directory(ROOT)
        &&& forall|p: int, q: int, t: Target|
            #[trigger] self.holds(p, t) && #[trigger] self.holds(q, t) ==> p == q
    }

    /// Replace the collection of directory `p` that holds the kind of `t`.
    pub open spec fn with_entries(self, p: int, t: Target, s: Seq<usize>) -> VfsView {
        let d = self.dirs[p];
        let nd = match t {
            Target::Directory(_) => DirView {
                name: d.name,
                mode: d.mode,
                directories: s,
                files: d.files,
            },
            Target::File(_) => DirView {
                name: d.name,
                mode: d.mode,
                directories: d.directories,
                files: s,
            },
        };
        VfsView { dirs: self.dirs.update(p, nd), files: self.files }
    }

    /// The directory that holds `t`, where one does.
    pub open spec fn parent(self, t: Target) -> int {
        choose|p: int| self.holds(p, t)
    }

    /// The tree with `t` taken out of its parent's collection.
    pub open spec fn detach(self, t: Target) -> VfsView {
        let p = self.parent(t);
        let s = self.entries(p, t);
        self.with_entries(p, t, s.remove(s.index_of(t.id())))
    }

    /// The tree with `t` appended to the collection of directory `p`.
    pub open spec fn attach(self, p: int, t: Target) -> VfsView {
        self.with_entries(p, t, self.entries(p, t).push(t.id()))
    }

    /// Directory `to` is `from` or lies below it within `steps` levels.
    pub open spec fn reaches(self, from: int, to: int, steps: nat) -> bool
        decreases steps,
    {
        from == to || (steps > 0 && 0 <= from < self.dirs.len() && exists|i: int|
            0 <= i < self.dirs[from].directories.len() && self.reaches(
                #[trigger] self.dirs[from].directories[i] as int,
                to,
                (steps - 1) as nat,
            ))
    }

    /// Directory `d` can be reached from the root.
    pub open spec fn in_tree(self, d: int) -> bool {
        self.reaches(ROOT as int, d, self.dirs.len())
    }

    /// A move finds its entity: it is held by a directory of the tree.
    pub open spec fn movable(self, t: Target) -> bool {
        exists|p: int| self.holds(p, t) && self.in_tree(p)
    }
}

proof fn lemma_remove_no_dup(s: Seq<usize>, i: int)
    requires
        s.no_duplicates(),
        0 <= i < s.len(),
    ensures
        s.remove(i).no_duplicates(),
        forall|x: usize| s.remove(i).contains(x) <==> (s.contains(x) && x != s[i]),
{
    let r = s.remove(i);
    assert forall|a: int, b: int| 0 <= a < r.len() && 0 <= b < r.len() && a != b implies r[a]
        != r[b] by {
        let oa = if a < i { a } else { a + 1 };
        let ob = if b < i { b } else { b + 1 };
        assert(r[a] == s[oa]);
        assert(r[b] == s[ob]);
    }
    assert forall|x: usize| r.contains(x) <==> (s.contains(x) && x != s[i]) by {
        if r.contains(x) {
            let a = choose|a: int| 0 <= a < r.len() && r[a] == x;
            let oa = if a < i { a } else { a + 1 };
            assert(s[oa] == x);
        }
        if s.contains(x) && x != s[i] {
            let a = choose|a: int| 0 <= a < s.len() && s[a] == x;
            if a < i {
                assert(r[a] == x);
            } else {
                assert(r[a - 1] == x);
            }
        }
    }
}

proof fn lemma_push_no_dup(s: Seq<usize>, x: usize)
    requires
        s.no_duplicates(),
        !s.contains(x),
    ensures
        s.push(x).no_duplicates(),
        forall|y: usize| s.push(x).contains(y) <==> (s.contains(y) || y == x),
{
    let r = s.push(x);
    assert forall|y: usize| r.contains(y) <==> (s.contains(y) || y == x) by {
        if r.contains(y) {
            let a = choose|a: int| 0 <= a < r.len() && r[a] == y;
            if a < s.len() {
                assert(s[a] == y);
            }
        }
        if s.contains(y) {
            let a = choose|a: int| 0 <= a < s.len() && s[a] == y;
            assert(r[a] == y);
        }
        if y == x {
            assert(r[s.len() as int] == y);
        }
    }
    assert forall|a: int, b: int| 0 <= a < r.len() && 0 <= b < r.len() && a != b implies r[a]
        != r[b] by {
        if a == s.len() {
            assert(s[b] == r[b]);
        } else if b == s.len() {
            assert(s[a] == r[a]);
        }
    }
}

/// Taking an entity out of its parent keeps the tree well formed, and the
/// entity is then held nowhere.
proof fn lemma_detach(v: VfsView, t: Target)
    requires
        v.wf(),
        v.is_held(t),
    ensures
        v.detach(t).wf(),
        !v.detach(t).is_held(t),
        v.detach(t).dirs.len() == v.dirs.len(),
        forall|p: int, u: Target| u != t ==> (v.detach(t).holds(p, u) <==> v.holds(p, u)),
{
    let p = v.parent(t);
    let s = v.entries(p, t);
    let i = s.index_of(t.id());
    assert(0 <= i < s.len() && s[i] == t.id());
    lemma_remove_no_dup(s, i);
    let w = v.detach(t);
    assert forall|q: int, u: Target| 0 <= q < v.dirs.len() implies w.entries(q, u) == (if q == p && (u is Directory
        <==> t is Directory) { s.remove(i) } else { v.entries(q, u) }) by {}
    assert forall|q: int, u: Target| u != t implies (w.holds(q, u) <==> v.holds(q, u)) by {}
    assert(!w.is_held(t)) by {
        if w.is_held(t) {
            let q = choose|q: int| w.holds(q, t);
            if q != p {
                assert(v.holds(q, t) && v.holds(p, t));
            }
        }
    }
    assert forall|q: int, u: Target| 0 <= q < w.dirs.len() implies (#[trigger] w.entries(
        q,
        u,
    )).no_duplicates() by {
        assert(v.entries(q, u).no_duplicates());
    }
    assert forall|q: int, u: Target| #[trigger] w.holds(q, u) implies w.valid(u) && u
        != Target::Directory(ROOT) by {
        assert(v.holds(q, u));
    }
    assert forall|q1: int, q2: int, u: Target| #[trigger] w.holds(q1, u) && #[trigger] w.holds(
        q2,
        u,
    ) implies q1 == q2 by {
        assert(v.holds(q1, u) && v.holds(q2, u));
    }
}

/// Appending an entity that has no parent keeps the tree well formed, and the
/// entity is then held by that directory alone.
proof fn lemma_attach(v: VfsView, p: int, t: Target)
    requires
        v.wf(),
        0 <= p < v.dirs.len(),
        v.valid(t),
        t != Target::Directory(ROOT),
        !v.is_held(t),
    ensures
        v.attach(p, t).wf(),
        v.attach(p, t).holds(p, t),
        forall|q: int| q != p ==> !v.attach(p, t).holds(q, t),
        v.attach(p, t).dirs.len() == v.dirs.len(),
        forall|q: int, u: Target| u != t ==> (v.attach(p, t).holds(q, u) <==> v.holds(q, u)),
{
    let s = v.entries(p, t);
    assert(!s.contains(t.id())) by {
        assert(!v.holds(p, t));
    }
    lemma_push_no_dup(s, t.id());
    let w = v.attach(p, t);
    assert forall|q: int, u: Target| 0 <= q < v.dirs.len() implies w.entries(q, u) == (if q == p && (u is Directory
        <==> t is Directory) { s.push(t.id()) } else { v.entries(q, u) }) by {}
    assert(w.holds(p, t));
    assert forall|q: int, u: Target| u != t implies (w.holds(q, u) <==> v.holds(q, u)) by {
        if q == p && (u is Directory <==> t is Directory) {
            assert(u.id() != t.id());
        }
    }
    assert forall|q: int| q != p implies !w.holds(q, t) by {
        assert(!v.holds(q, t));
    }
    assert forall|q: int, u: Target| 0 <= q < w.dirs.len() implies (#[trigger] w.entries(
        q,
        u,
    )).no_duplicates() by {
        assert(v.entries(q, u).no_duplicates());
    }
    assert forall|q: int, u: Target| #[trigger] w.holds(q, u) implies w.valid(u) && u
        != Target::Directory(ROOT) by {
        if u != t {
            assert(v.holds(q, u));
        }
    }
    assert forall|q1: int, q2: int, u: Target| #[trigger] w.holds(q1, u) && #[trigger] w.holds(
        q2,
        u,
    ) implies q1 == q2 by {
        if u != t {
            assert(v.holds(q1, u) && v.holds(q2, u));
        }
    }
}

/// The whole file system: two arenas, the root directory at index `ROOT`.
pub struct Vfs {
    pub dirs: Vec<Directory>,
    pub files: Vec<File>,
}

impl View for Vfs {
    type V = VfsView;

    open spec fn view(&self) -> VfsView {
        VfsView {
            dirs: self.dirs@.map_values(|d: Directory| d@),
            files: self.files@.map_values(|f: File| f@),
        }
    }
}


/// Index of the first occurrence of `x` in `v`.
fn position_of(v: &Vec<usize>, x: usize) -> (r: Option<usize>)
    ensures
        match r {
            Some(i) => i < v@.len() && v@[i as int] == x,
            None => !v@.contains(x),
        },
{
    let mut i: usize = 0;
    while i < v.len()
        invariant
            0 <= i <= v@.len(),
            forall|j: int| 0 <= j < i ==> v@[j] != x,
        decreases v@.len() - i,
    {
        if v[i] == x {
            return Some(i);
        }
        i = i + 1;
    }
    None
}

impl Target {
    /// The arena index of the entity.
    pub fn index(&self) -> (r: usize)
        ensures
            r == self.id(),
    {
        match self {
            Target::File(f) => *f,
            Target::Directory(d) => *d,
        }
    }
}

impl Vfs {
    /// Tells whether `t` names an entity of the arenas.
    pub fn is_valid(&self, t: Target) -> (r: bool)
        ensures
            r == self@.valid(t),
    {
        match t {
            Target::Directory(d) => d < self.dirs.len(),
            Target::File(f) => f < self.files.len(),
        }
    }

    /// A file system that holds an empty root directory.
    pub fn new(name: String, mode: u32) -> (r: Vfs)
        ensures
            r@.wf(),
            r@.dirs == seq![DirView { name: name@, mode, directories: seq![], files: seq![] }],
            r@.files == Seq::<FileView>::empty(),
    {
        let ghost root_name = name@;
        let mut dirs: Vec<Directory> = Vec::new();
        dirs.push(Directory { name, mode, directories: Vec::new(), files: Vec::new() });
        let r = Vfs { dirs, files: Vec::new() };
        assert(r@.dirs =~= seq![
            DirView { name: root_name, mode, directories: seq![], files: seq![] },
        ]);
        assert(r@.files =~= Seq::<FileView>::empty());
        assert forall|p: int, t: Target| !r@.holds(p, t) by {
            if 0 <= p < r@.dirs.len() {
                assert(r@.entries(p, t) =~= Seq::<usize>::empty());
            }
        }
        r
    }

    /// The collection of directory `p` that holds entities of the kind of `t`.
    pub fn entries(&self, p: usize, t: Target) -> (r: &Vec<usize>)
        requires
            p < self@.dirs.len(),
        ensures
            r@ == self@.entries(p as int, t),
    {
        match t {
            Target::Directory(_) => &self.dirs[p].directories,
            Target::File(_) => &self.dirs[p].files,
        }
    }

    fn remove_entry(&mut self, p: usize, t: Target, i: usize)
        requires
            p < old(self)@.dirs.len(),
            i < old(self)@.entries(p as int, t).len(),
        ensures
            final(self)@ == old(self)@.with_entries(
                p as int,
                t,
                old(self)@.entries(p as int, t).remove(i as int),
            ),
    {
        let ghost w = old(self)@.with_entries(
            p as int,
            t,
            old(self)@.entries(p as int, t).remove(i as int),
        );
        match t {
            Target::Directory(_) => {
                self.dirs[p].directories.remove(i);
            },
            Target::File(_) => {
                self.dirs[p].files.remove(i);
            },
        }
        assert(self@.dirs =~= w.dirs);
        assert(self@.files =~= w.files);
    }

    fn push_entry(&mut self, p: usize, t: Target)
        requires
            p < old(self)@.dirs.len(),
        ensures
            final(self)@ == old(self)@.attach(p as int, t),
    {
        let ghost w = old(self)@.attach(p as int, t);
        match t {
            Target::Directory(d) => {
                self.dirs[p].directories.push(d);
            },
            Target::File(f) => {
                self.dirs[p].files.push(f);
            },
        }
        assert(self@.dirs =~= w.dirs);
        assert(self@.files =~= w.files);
    }
}

/// Looks for the parent of `target` in `dir` and, `fuel` levels deep, below
/// it: first the collection of `dir` itself, then each child directory in
/// storage order. The first parent found loses `target`.
fn remove_below(vfs: &mut Vfs, target: Target, dir: usize, fuel: usize) -> (found: bool)
    requires
        old(vfs)@.wf(),
        dir < old(vfs)@.dirs.len(),
    ensures
        found == exists|p: int|
            old(vfs)@.holds(p, target) && old(vfs)@.reaches(dir as int, p, fuel as nat),
        found ==> final(vfs)@ == old(vfs)@.detach(target),
        !found ==> final(vfs)@ == old(vfs)@,
    decreases fuel,
{
    let ghost v = vfs@;
    let id = target.index();
    match position_of(vfs.entries(dir, target), id) {
        Some(i) => {
            proof {
                assert(v.holds(dir as int, target));
                assert(v.parent(target) == dir as int) by {
                    let p = v.parent(target);
                    assert(v.holds(p, target));
                }
                let s = v.entries(dir as int, target);
                assert(s.no_duplicates());
                assert(s.index_of(id) == i as int) by {
                    let j = s.index_of(id);
                    assert(0 <= j < s.len() && s[j] == id);
                }
                assert(v.reaches(dir as int, dir as int, fuel as nat));
            }
            vfs.remove_entry(dir, target, i);
            return true;
        },
        None => {},
    }
    assert(!v.holds(dir as int, target));
    if fuel == 0 {
        return false;
    }
    let n = vfs.dirs[dir].directories.len();
    let mut k: usize = 0;
    while k < n
        invariant
            vfs@ == v,
            v == old(vfs)@,
            v.wf(),
            dir < v.dirs.len(),
            fuel > 0,
            n == v.dirs[dir as int].directories.len(),
            0 <= k <= n,
            forall|j: int, p: int|
                0 <= j < k && v.holds(p, target) ==> !v.reaches(
                    v.dirs[dir as int].directories[j] as int,
                    p,
                    (fuel - 1) as nat,
                ),
        decreases n - k,
    {
        let c = vfs.dirs[dir].directories[k];
        proof {
            let t = Target::Directory(c);
            assert(v.entries(dir as int, t)[k as int] == c);
            assert(v.holds(dir as int, t));
        }
        if remove_below(vfs, target, c, fuel - 1) {
            proof {
                let p = choose|p: int| v.holds(p, target) && v.reaches(c as int, p, (fuel - 1) as nat);
                assert(v.dirs[dir as int].directories[k as int] == c);
                assert(v.reaches(dir as int, p, fuel as nat));
            }
            return true;
        }
        k = k + 1;
    }
    proof {
        assert forall|p: int| v.holds(p, target) implies !v.reaches(dir as int, p, fuel as nat) by {
            if v.reaches(dir as int, p, fuel as nat) {
                assert(p != dir as int);
                let j = choose|j: int|
                    0 <= j < v.dirs[dir as int].directories.len() && v.reaches(
                        #[trigger] v.dirs[dir as int].directories[j] as int,
                        p,
                        (fuel - 1) as nat,
                    );
            }
        }
    }
    false
}

/// Takes `target` out of the collection of its parent, which is searched
/// for from `root` down through the tree, and tells whether it was found.
pub fn find_and_remove_from_parent(target: &Target, root: usize, vfs: &mut Vfs) -> (found: bool)
    requires
        old(vfs)@.wf(),
        root < old(vfs)@.dirs.len(),
    ensures
        found == exists|p: int|
            old(vfs)@.holds(p, *target) && old(vfs)@.reaches(
                root as int,
                p,
                old(vfs)@.dirs.len(),
            ),
        found ==> final(vfs)@ == old(vfs)@.detach(*target),
        !found ==> final(vfs)@ == old(vfs)@,
{
    let fuel = vfs.dirs.len();
    remove_below(vfs, *target, root, fuel)
}


impl VfsView {
    /// The tree with one more directory in the arena, held by nobody yet.
    pub open spec fn with_new_dir(self, name: Seq<char>, mode: u32) -> VfsView {
        VfsView {
            dirs: self.dirs.push(DirView { name, mode, directories: seq![], files: seq![] }),
            files: self.files,
        }
    }

    /// The tree with one more file in the arena, held by nobody yet.
    pub open spec fn with_new_file(self, name: Seq<char>, mode: u32, data: Seq<u8>) -> VfsView {
        VfsView { dirs: self.dirs, files: self.files.push(FileView { name, mode, data }) }
    }

    /// The name of the entity `t`.
    pub open spec fn name(self, t: Target) -> Seq<char> {
        match t {
            Target::Directory(d) => self.dirs[d as int].name,
            Target::File(f) => self.files[f as int].name,
        }
    }

    /// The tree with the entity `t` named `name`; nothing else changes.
    pub open spec fn renamed(self, t: Target, name: Seq<char>) -> VfsView {
        match t {
            Target::Directory(d) => {
                let o = self.dirs[d as int];
                VfsView {
                    dirs: self.dirs.update(
                        d as int,
                        DirView {
                            name,
                            mode: o.mode,
                            directories: o.directories,
                            files: o.files,
                        },
                    ),
                    files: self.files,
                }
            },
            Target::File(f) => {
                let o = self.files[f as int];
                VfsView {
                    dirs: self.dirs,
                    files: self.files.update(f as int, FileView { name, mode: o.mode, data: o.data }),
                }
            },
        }
    }
}

proof fn lemma_with_new_dir(v: VfsView, name: Seq<char>, mode: u32, id: usize)
    requires
        v.wf(),
        id == v.dirs.len(),
    ensures
        v.with_new_dir(name, mode).wf(),
        !v.with_new_dir(name, mode).is_held(Target::Directory(id)),
        forall|p: int, u: Target| v.with_new_dir(name, mode).holds(p, u) <==> v.holds(p, u),
{
    let w = v.with_new_dir(name, mode);
    let n = v.dirs.len() as int;
    assert forall|p: int, u: Target| 0 <= p < w.dirs.len() implies (#[trigger] w.entries(
        p,
        u,
    )).no_duplicates() by {
        if p < n {
            assert(w.entries(p, u) == v.entries(p, u));
        } else {
            assert(w.entries(p, u) =~= Seq::<usize>::empty());
        }
    }
    assert forall|p: int, u: Target| w.holds(p, u) <==> v.holds(p, u) by {
        if p == n {
            assert(w.entries(p, u) =~= Seq::<usize>::empty());
        } else if 0 <= p < n {
            assert(w.entries(p, u) == v.entries(p, u));
        }
    }
    assert forall|p: int| !w.holds(p, Target::Directory(id)) by {
        if w.holds(p, Target::Directory(id)) {
            assert(v.holds(p, Target::Directory(id)));
        }
    }
    assert forall|p: int, u: Target| #[trigger] w.holds(p, u) implies w.valid(u) && u
        != Target::Directory(ROOT) by {
        assert(v.holds(p, u));
    }
    assert forall|p: int, q: int, u: Target| #[trigger] w.holds(p, u) && #[trigger] w.holds(
        q,
        u,
    ) implies p == q by {
        assert(v.holds(p, u) && v.holds(q, u));
    }
}

proof fn lemma_with_new_file(v: VfsView, name: Seq<char>, mode: u32, data: Seq<u8>, id: usize)
    requires
        v.wf(),
        id == v.files.len(),
    ensures
        v.with_new_file(name, mode, data).wf(),
        !v.with_new_file(name, mode, data).is_held(Target::File(id)),
        forall|p: int, u: Target| v.with_new_file(name, mode, data).holds(p, u) <==> v.holds(p, u),
{
    let w = v.with_new_file(name, mode, data);
    assert forall|p: int, u: Target| 0 <= p < w.dirs.len() implies w.entries(p, u) == v.entries(
        p,
        u,
    ) by {}
    assert forall|p: int, u: Target| w.holds(p, u) <==> v.holds(p, u) by {
        if 0 <= p < w.dirs.len() {
            assert(w.entries(p, u) == v.entries(p, u));
        }
    }
    assert forall|p: int, u: Target| 0 <= p < w.dirs.len() implies (#[trigger] w.entries(
        p,
        u,
    )).no_duplicates() by {
        assert(w.entries(p, u) == v.entries(p, u));
    }
    assert forall|p: int| !w.holds(p, Target::File(id)) by {
        if w.holds(p, Target::File(id)) {
            assert(v.holds(p, Target::File(id)));
        }
    }
    assert forall|p: int, u: Target| #[trigger] w.holds(p, u) implies w.valid(u) && u
        != Target::Directory(ROOT) by {
        assert(v.holds(p, u));
    }
    assert forall|p: int, q: int, u: Target| #[trigger] w.holds(p, u) && #[trigger] w.holds(
        q,
        u,
    ) implies p == q by {
        assert(v.holds(p, u) && v.holds(q, u));
    }
}

proof fn lemma_renamed(v: VfsView, t: Target, name: Seq<char>)
    requires
        v.wf(),
        v.valid(t),
    ensures
        v.renamed(t, name).wf(),
        v.renamed(t, name).name(t) == name,
        forall|p: int, u: Target| v.renamed(t, name).holds(p, u) <==> v.holds(p, u),
{
    let w = v.renamed(t, name);
    assert forall|p: int, u: Target| 0 <= p < v.dirs.len() implies w.entries(p, u) == v.entries(
        p,
        u,
    ) by {}
    assert forall|p: int, u: Target| w.holds(p, u) <==> v.holds(p, u) by {
        if 0 <= p < v.dirs.len() {
            assert(w.entries(p, u) == v.entries(p, u));
        }
    }
    assert forall|p: int, u: Target| 0 <= p < w.dirs.len() implies (#[trigger] w.entries(
        p,
        u,
    )).no_duplicates() by {
        assert(w.entries(p, u) == v.entries(p, u));
    }
}

impl Vfs {
    /// Makes a new empty directory and appends it to the directories of
    /// `parent`.
    pub fn create_directory(&mut self, parent: usize, name: String, mode: u32) -> (id: usize)
        requires
            old(self)@.wf(),
            parent < old(self)@.dirs.len(),
        ensures
            id == old(self)@.dirs.len(),
            final(self)@ == old(self)@.with_new_dir(name@, mode).attach(
                parent as int,
                Target::Directory(id),
            ),
            final(self)@.wf(),
    {
        let ghost v = self@;
        let ghost nm = name@;
        let id = self.dirs.len();
        self.dirs.push(Directory { name, mode, directories: Vec::new(), files: Vec::new() });
        proof {
            assert(self@.dirs =~= v.with_new_dir(nm, mode).dirs);
            assert(self@ == v.with_new_dir(nm, mode));
            lemma_with_new_dir(v, nm, mode, id);
            lemma_attach(self@, parent as int, Target::Directory(id));
        }
        self.push_entry(parent, Target::Directory(id));
        id
    }

    /// Makes a new file and appends it to the files of `parent`.
    pub fn create_file(&mut self, parent: usize, name: String, mode: u32, data: Vec<u8>) -> (id:
        usize)
        requires
            old(self)@.wf(),
            parent < old(self)@.dirs.len(),
        ensures
            id == old(self)@.files.len(),
            final(self)@ == old(self)@.with_new_file(name@, mode, data@).attach(
                parent as int,
                Target::File(id),
            ),
            final(self)@.wf(),
    {
        let ghost v = self@;
        let ghost nm = name@;
        let ghost bytes = data@;
        let id = self.files.len();
        self.files.push(File { name, mode, data });
        proof {
            assert(self@.files =~= v.with_new_file(nm, mode, bytes).files);
            assert(self@ == v.with_new_file(nm, mode, bytes));
            lemma_with_new_file(v, nm, mode, bytes, id);
            lemma_attach(self@, parent as int, Target::File(id));
        }
        self.push_entry(parent, Target::File(id));
        id
    }

    /// Takes `t` out of the collection of `parent`; `NotFound` where
    /// `parent` does not hold it.
    pub fn remove(&mut self, parent: usize, t: Target) -> (r: Result<(), VfsError>)
        requires
            old(self)@.wf(),
            parent < old(self)@.dirs.len(),
        ensures
            r is Ok <==> old(self)@.holds(parent as int, t),
            r is Ok ==> final(self)@ == old(self)@.detach(t),
            r is Err ==> r == Err::<(), VfsError>(VfsError::NotFound) && final(self)@ == old(
                self,
            )@,
            final(self)@.wf(),
    {
        let ghost v = self@;
        let id = t.index();
        match position_of(self.entries(parent, t), id) {
            Some(i) => {
                proof {
                    assert(v.holds(parent as int, t));
                    assert(v.parent(t) == parent as int) by {
                        let p = v.parent(t);
                        assert(v.holds(p, t));
                    }
                    let s = v.entries(parent as int, t);
                    assert(s.index_of(id) == i as int) by {
                        let j = s.index_of(id);
                        assert(0 <= j < s.len() && s[j] == id);
                    }
                    lemma_detach(v, t);
                }
                self.remove_entry(parent, t, i);
                Ok(())
            },
            None => Err(VfsError::NotFound),
        }
    }

    /// Tells whether some directory holds `t`.
    pub fn is_held(&self, t: Target) -> (r: bool)
        ensures
            r == self@.is_held(t),
    {
        let id = t.index();
        let mut p: usize = 0;
        while p < self.dirs.len()
            invariant
                0 <= p <= self@.dirs.len(),
                id == t.id(),
                forall|q: int| 0 <= q < p ==> !self@.holds(q, t),
            decreases self@.dirs.len() - p,
        {
            match position_of(self.entries(p, t), id) {
                Some(i) => {
                    assert(self@.dirs.len() == self.dirs@.len());
                    assert(self@.entries(p as int, t)[i as int] == id);
                    assert(self@.holds(p as int, t));
                    return true;
                },
                None => {
                    assert(self@.dirs.len() == self.dirs@.len());
                    assert(!self@.holds(p as int, t));
                },
            }
            p = p + 1;
        }
        false
    }

    /// Appends an entity that has no parent to the collection of `parent`:
    /// `AlreadyPlaced` where some directory holds it, `NotFound` where it is
    /// not in the arenas or is the root.
    pub fn insert(&mut self, parent: usize, t: Target) -> (r: Result<(), VfsError>)
        requires
            old(self)@.wf(),
            parent < old(self)@.dirs.len(),
        ensures
            r == (if !old(self)@.valid(t) || t == Target::Directory(ROOT) {
                Err(VfsError::NotFound)
            } else if old(self)@.is_held(t) {
                Err(VfsError::AlreadyPlaced)
            } else {
                Ok::<(), VfsError>(())
            }),
            r is Ok ==> final(self)@ == old(self)@.attach(parent as int, t),
            r is Err ==> final(self)@ == old(self)@,
            final(self)@.wf(),
    {
        let valid = match t {
            Target::Directory(d) => d < self.dirs.len() && d != ROOT,
            Target::File(f) => f < self.files.len(),
        };
        if !valid {
            return Err(VfsError::NotFound);
        }
        if self.is_held(t) {
            return Err(VfsError::AlreadyPlaced);
        }
        proof {
            lemma_attach(self@, parent as int, t);
        }
        self.push_entry(parent, t);
        Ok(())
    }

    /// Moves `t` into `new_parent`: its parent is searched for from the root
    /// down and loses it, then `new_parent` appends it. `NotFound`, with
    /// nothing changed, where no directory of the tree holds it. A directory
    /// may be moved below itself.
    pub fn move_to(&mut self, t: Target, new_parent: usize) -> (r: Result<(), VfsError>)
        requires
            old(self)@.wf(),
            new_parent < old(self)@.dirs.len(),
        ensures
            r is Ok <==> old(self)@.movable(t),
            r is Ok ==> final(self)@ == old(self)@.detach(t).attach(new_parent as int, t),
            r is Err ==> r == Err::<(), VfsError>(VfsError::NotFound) && final(self)@ == old(
                self,
            )@,
            final(self)@.wf(),
    {
        let ghost v = self@;
        if find_and_remove_from_parent(&t, ROOT, self) {
            proof {
                let p = choose|p: int| v.holds(p, t) && v.reaches(ROOT as int, p, v.dirs.len());
                assert(v.holds(p, t));
                assert(v.in_tree(p));
                assert(v.movable(t));
                lemma_detach(v, t);
                lemma_attach(self@, new_parent as int, t);
            }
            self.push_entry(new_parent, t);
            Ok(())
        } else {
            assert(!v.movable(t)) by {
                if v.movable(t) {
                    let p = choose|p: int| v.holds(p, t) && v.in_tree(p);
                    assert(v.reaches(ROOT as int, p, v.dirs.len()));
                }
            }
            Err(VfsError::NotFound)
        }
    }

    /// Gives the entity `t` a new name; nothing else changes.
    pub fn set_name(&mut self, t: Target, name: String)
        requires
            old(self)@.wf(),
            old(self)@.valid(t),
        ensures
            final(self)@ == old(self)@.renamed(t, name@),
            final(self)@.wf(),
    {
        let ghost v = self@;
        let ghost nm = name@;
        match t {
            Target::Directory(d) => {
                self.dirs[d].name = name;
            },
            Target::File(f) => {
                self.files[f].name = name;
            },
        }
        proof {
            assert(self@.dirs =~= v.renamed(t, nm).dirs);
            assert(self@.files =~= v.renamed(t, nm).files);
            lemma_renamed(v, t, nm);
        }
    }

    /// The name of the entity `t`.
    pub fn name(&self, t: Target) -> (r: &String)
        requires
            self@.valid(t),
        ensures
            r@ == self@.name(t),
    {
        match t {
            Target::Directory(d) => &self.dirs[d].name,
            Target::File(f) => &self.files[f].name,
        }
    }
}

/// What is reached within some number of levels is reached within any
/// larger number.
pub proof fn lemma_reaches_more(v: VfsView, from: int, to: int, k: nat, m: nat)
    requires
        v.reaches(from, to, k),
        k <= m,
    ensures
        v.reaches(from, to, m),
    decreases k,
{
    if from != to {
        let i = choose|i: int|
            0 <= i < v.dirs[from].directories.len() && v.reaches(
                #[trigger] v.dirs[from].directories[i] as int,
                to,
                (k - 1) as nat,
            );
        lemma_reaches_more(v, v.dirs[from].directories[i] as int, to, (k - 1) as nat, (m - 1) as nat);
    }
}

/// After a move, the entity sits in the collection of its new parent and in
/// no other collection of the file system: not in the one it left, nor
/// anywhere else.
pub proof fn lemma_move_leaves_one_place(v: VfsView, a: int, b: int, t: Target)
    requires
        v.wf(),
        v.holds(a, t),
        v.in_tree(a),
        0 <= b < v.dirs.len(),
    ensures
        v.movable(t),
        v.detach(t).attach(b, t).wf(),
        v.detach(t).attach(b, t).holds(b, t),
        forall|p: int| p != b ==> !v.detach(t).attach(b, t).holds(p, t),
{
    lemma_detach(v, t);
    lemma_attach(v.detach(t), b, t);
}

} // verus!
