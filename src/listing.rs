//! Display order of a directory: its child directories and its files, each
//! sorted by name. Storage keeps insertion order; only the listing sorts.
use vstd::prelude::*;
use vstd::string::*;
use crate::vfs::{Target, Vfs, VfsView};

verus! {

/// `a` comes no later than `b` when both are compared character by character
/// from position `i` on.
pub open spec fn name_le_from(a: Seq<char>, b: Seq<char>, i: int) -> bool
    decreases a.len() - i,
{
    if i < 0 || i >= a.len() {
        true
    } else if i >= b.len() {
        false
    } else if (a[i] as u32) != (b[i] as u32) {
        (a[i] as u32) < (b[i] as u32)
    } else {
        name_le_from(a, b, i + 1)
    }
}

/// Lexicographic order of names by code point: `a` sorts no later than `b`.
pub open spec fn name_le(a: Seq<char>, b: Seq<char>) -> bool {
    name_le_from(a, b, 0)
}

proof fn lemma_name_le_total(a: Seq<char>, b: Seq<char>, i: int)
    requires
        i >= 0,
    ensures
        name_le_from(a, b, i) || name_le_from(b, a, i),
    decreases a.len() - i,
{
    if i < a.len() && i < b.len() && (a[i] as u32) == (b[i] as u32) {
        lemma_name_le_total(a, b, i + 1);
    }
}

proof fn lemma_name_le_trans(a: Seq<char>, b: Seq<char>, c: Seq<char>, i: int)
    requires
        i >= 0,
        name_le_from(a, b, i),
        name_le_from(b, c, i),
    ensures
        name_le_from(a, c, i),
    decreases a.len() - i,
{
    if i < a.len() && i < b.len() && i < c.len() && (a[i] as u32) == (b[i] as u32) && (b[i]
        as u32) == (c[i] as u32) {
        lemma_name_le_trans(a, b, c, i + 1);
    }
}

/// Compares two names in display order.
pub fn name_le_exec(a: &str, b: &str) -> (r: bool)
    ensures
        r == name_le(a@, b@),
{
    let la = a.unicode_len();
    let lb = b.unicode_len();
    let mut i: usize = 0;
    while i < la && i < lb
        invariant
            la == a@.len(),
            lb == b@.len(),
            0 <= i <= la,
            i <= lb,
            name_le(a@, b@) == name_le_from(a@, b@, i as int),
        decreases la - i,
    {
        let ca = a.get_char(i);
        let cb = b.get_char(i);
        if ca as u32 != cb as u32 {
            return (ca as u32) < (cb as u32);
        }
        i = i + 1;
    }
    i >= la
}

/// The entity of the kind of `kind` with arena index `x`.
pub open spec fn of_kind(kind: Target, x: usize) -> Target {
    match kind {
        Target::Directory(_) => Target::Directory(x),
        Target::File(_) => Target::File(x),
    }
}

/// `r` lists the indices in display order: each name sorts no later than
/// the next one.
pub open spec fn in_display_order(v: VfsView, kind: Target, r: Seq<usize>) -> bool {
    forall|i: int, j: int|
        0 <= i < j < r.len() ==> name_le(
            v.name(of_kind(kind, #[trigger] r[i])),
            v.name(of_kind(kind, #[trigger] r[j])),
        )
}

/// `r` holds the same indices as `s`, each once.
pub open spec fn same_members(r: Seq<usize>, s: Seq<usize>) -> bool {
    &&& r.len() == s.len()
    &&& r.no_duplicates()
    &&& forall|x: usize| r.contains(x) <==> s.contains(x)
}

/// `r` with `x` put before the first entry whose name sorts after the name
/// of `x`, or at the end.
pub open spec fn insert_by_name(v: VfsView, kind: Target, r: Seq<usize>, x: usize) -> Seq<usize>
    decreases r.len(),
{
    if r.len() == 0 {
        seq![x]
    } else if !name_le(v.name(of_kind(kind, r[0])), v.name(of_kind(kind, x))) {
        seq![x] + r
    } else {
        seq![r[0]] + insert_by_name(v, kind, r.drop_first(), x)
    }
}

/// `s` sorted by name; entries with equal names keep their order in `s`.
pub open spec fn sort_by_name(v: VfsView, kind: Target, s: Seq<usize>) -> Seq<usize>
    decreases s.len(),
{
    if s.len() == 0 {
        seq![]
    } else {
        insert_by_name(v, kind, sort_by_name(v, kind, s.drop_last()), s.last())
    }
}

proof fn lemma_insert_at_first_later(v: VfsView, kind: Target, r: Seq<usize>, x: usize, j: int)
    requires
        0 <= j <= r.len(),
        forall|a: int| 0 <= a < j ==> name_le(v.name(of_kind(kind, #[trigger] r[a])), v.name(of_kind(kind, x))),
        j < r.len() ==> !name_le(v.name(of_kind(kind, r[j])), v.name(of_kind(kind, x))),
    ensures
        r.insert(j, x) == insert_by_name(v, kind, r, x),
    decreases r.len(),
{
    if r.len() == 0 {
        assert(r.insert(j, x) =~= seq![x]);
    } else if j == 0 {
        assert(r.insert(j, x) =~= seq![x] + r);
    } else {
        let t = r.drop_first();
        assert forall|a: int| 0 <= a < j - 1 implies name_le(v.name(of_kind(kind, #[trigger] t[a])), v.name(of_kind(kind, x))) by {
            assert(t[a] == r[a + 1]);
        }
        lemma_insert_at_first_later(v, kind, t, x, j - 1);
        assert(r.insert(j, x) =~= seq![r[0]] + t.insert(j - 1, x));
    }
}

proof fn lemma_insert_members(r: Seq<usize>, k: int, x: usize)
    requires
        r.no_duplicates(),
        !r.contains(x),
        0 <= k <= r.len(),
    ensures
        r.insert(k, x).no_duplicates(),
        forall|y: usize| r.insert(k, x).contains(y) <==> (r.contains(y) || y == x),
{
    let n = r.insert(k, x);
    assert forall|a: int| 0 <= a < n.len() implies n[a] == (if a < k {
        r[a]
    } else if a == k {
        x
    } else {
        r[a - 1]
    }) by {}
    assert forall|y: usize| n.contains(y) <==> (r.contains(y) || y == x) by {
        if n.contains(y) {
            let a = choose|a: int| 0 <= a < n.len() && n[a] == y;
            if a < k {
                assert(r[a] == y);
            } else if a > k {
                assert(r[a - 1] == y);
            }
        }
        if r.contains(y) {
            let a = choose|a: int| 0 <= a < r.len() && r[a] == y;
            if a < k {
                assert(n[a] == y);
            } else {
                assert(n[a + 1] == y);
            }
        }
        if y == x {
            assert(n[k] == y);
        }
    }
}

impl Vfs {
    fn sorted_entries(&self, d: usize, kind: Target) -> (r: Vec<usize>)
        requires
            self@.wf(),
            d < self@.dirs.len(),
        ensures
            r@ == sort_by_name(self@, kind, self@.entries(d as int, kind)),
            same_members(r@, self@.entries(d as int, kind)),
            in_display_order(self@, kind, r@),
    {
        let ghost v = self@;
        let ghost s = v.entries(d as int, kind);
        let src = self.entries(d, kind);
        let mut r: Vec<usize> = Vec::new();
        let mut k: usize = 0;
        assert(s.no_duplicates());
        while k < src.len()
            invariant
                v == self@,
                v.wf(),
                d < v.dirs.len(),
                src@ == s,
                s == v.entries(d as int, kind),
                s.no_duplicates(),
                0 <= k <= s.len(),
                r@.len() == k,
                r@.no_duplicates(),
                forall|y: usize| r@.contains(y) <==> s.subrange(0, k as int).contains(y),
                forall|y: usize| #[trigger] r@.contains(y) ==> v.valid(of_kind(kind, y)),
                in_display_order(v, kind, r@),
                r@ == sort_by_name(v, kind, s.subrange(0, k as int)),
            decreases s.len() - k,
        {
            let x = src[k];
            proof {
                assert(s[k as int] == x);
                assert(v.holds(d as int, of_kind(kind, x)));
                assert(v.valid(of_kind(kind, x)));
                assert(!r@.contains(x)) by {
                    if r@.contains(x) {
                        let a = choose|a: int| 0 <= a < k && s.subrange(0, k as int)[a] == x;
                        assert(s[a] == x);
                    }
                }
            }
            let xt = match kind {
                Target::Directory(_) => Target::Directory(x),
                Target::File(_) => Target::File(x),
            };
            let xn = self.name(xt);
            let mut j: usize = 0;
            loop
                invariant
                    v == self@,
                    v.wf(),
                    xt == of_kind(kind, x),
                    v.valid(xt),
                    xn@ == v.name(xt),
                    0 <= j <= r@.len(),
                    forall|y: usize| #[trigger] r@.contains(y) ==> v.valid(of_kind(kind, y)),
                    forall|a: int| 0 <= a < j ==> name_le(v.name(of_kind(kind, #[trigger] r@[a])), xn@),
                ensures
                    0 <= j <= r@.len(),
                    forall|a: int| 0 <= a < j ==> name_le(v.name(of_kind(kind, #[trigger] r@[a])), xn@),
                    j < r@.len() ==> !name_le(v.name(of_kind(kind, r@[j as int])), xn@),
                decreases r@.len() - j,
            {
                if j >= r.len() {
                    break;
                }
                let yt = match kind {
                    Target::Directory(_) => Target::Directory(r[j]),
                    Target::File(_) => Target::File(r[j]),
                };
                assert(r@.contains(r@[j as int]));
                if !name_le_exec(self.name(yt).as_str(), xn.as_str()) {
                    break;
                }
                j = j + 1;
            }
            proof {
                let n = r@.insert(j as int, x);
                lemma_insert_members(r@, j as int, x);
                lemma_insert_at_first_later(v, kind, r@, x, j as int);
                let s1 = s.subrange(0, k + 1);
                assert(s1.drop_last() =~= s.subrange(0, k as int));
                assert(s1.last() == x);
                assert forall|a: int, b: int| 0 <= a < b < n.len() implies name_le(
                    v.name(of_kind(kind, #[trigger] n[a])),
                    v.name(of_kind(kind, #[trigger] n[b])),
                ) by {
                    let na = v.name(of_kind(kind, n[a]));
                    let nb = v.name(of_kind(kind, n[b]));
                    if b < j {
                        assert(n[a] == r@[a] && n[b] == r@[b]);
                    } else if b == j {
                        assert(n[a] == r@[a]);
                    } else if a > j {
                        assert(n[a] == r@[a - 1] && n[b] == r@[b - 1]);
                    } else if a == j {
                        assert(n[b] == r@[b - 1]);
                        let rj = v.name(of_kind(kind, r@[j as int]));
                        assert(!name_le(rj, xn@));
                        lemma_name_le_total(rj, xn@, 0);
                        if b - 1 > j {
                            assert(name_le(rj, nb));
                            lemma_name_le_trans(xn@, rj, nb, 0);
                        }
                    } else {
                        assert(n[a] == r@[a]);
                        assert(n[b] == r@[b - 1]);
                        assert(name_le(na, xn@));
                        let rj = v.name(of_kind(kind, r@[j as int]));
                        assert(!name_le(rj, xn@));
                        lemma_name_le_total(rj, xn@, 0);
                        if b - 1 > j {
                            assert(name_le(rj, nb));
                            lemma_name_le_trans(xn@, rj, nb, 0);
                        }
                        lemma_name_le_trans(na, xn@, nb, 0);
                    }
                }
                let s0 = s.subrange(0, k as int);
                let s1 = s.subrange(0, k + 1);
                assert forall|y: usize| n.contains(y) <==> s1.contains(y) by {
                    if s1.contains(y) && y != x {
                        let a = choose|a: int| 0 <= a < s1.len() && s1[a] == y;
                        assert(a != k);
                        assert(s0[a] == y);
                        assert(s0.contains(y));
                        assert(r@.contains(y));
                    }
                    if n.contains(y) && y != x {
                        assert(r@.contains(y));
                        assert(s0.contains(y));
                        let a = choose|a: int| 0 <= a < s0.len() && s0[a] == y;
                        assert(s1[a] == y);
                    }
                    if y == x {
                        assert(s1[k as int] == y);
                        assert(n.contains(y));
                    }
                }
                assert forall|y: usize| #[trigger] n.contains(y) implies v.valid(of_kind(kind, y)) by {
                    if y != x {
                        assert(r@.contains(y));
                    }
                }
            }
            r.insert(j, x);
            k = k + 1;
        }
        proof {
            assert(s.subrange(0, k as int) =~= s);
        }
        r
    }

    /// The child directories of `d` in display order: sorted by name, each
    /// child once, children of equal names in storage order.
    pub fn sorted_directories(&self, d: usize) -> (r: Vec<usize>)
        requires
            self@.wf(),
            d < self@.dirs.len(),
        ensures
            r@ == sort_by_name(self@, Target::Directory(0), self@.dirs[d as int].directories),
            same_members(r@, self@.dirs[d as int].directories),
            in_display_order(self@, Target::Directory(0), r@),
    {
        self.sorted_entries(d, Target::Directory(0))
    }

    /// The files of `d` in display order: sorted by name, each file once,
    /// files of equal names in storage order.
    pub fn sorted_files(&self, d: usize) -> (r: Vec<usize>)
        requires
            self@.wf(),
            d < self@.dirs.len(),
        ensures
            r@ == sort_by_name(self@, Target::File(0), self@.dirs[d as int].files),
            same_members(r@, self@.dirs[d as int].files),
            in_display_order(self@, Target::File(0), r@),
    {
        self.sorted_entries(d, Target::File(0))
    }
}

} // verus!
