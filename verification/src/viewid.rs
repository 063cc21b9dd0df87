//! Identity addressing.
//!
//! A view description is rebuilt from scratch on every pass, so nothing in it
//! can own durable state. What survives is the *position* of a node in the
//! tree: the keys that lead from the root to it. A `ViewID` is that path, and
//! it is computed by the walk itself, each parent handing every child the
//! parent's own path with the child's key added.

use vstd::prelude::*;

verus! {

/// The path of keys from the root of the view tree to one node.
///
/// The mathematical model of an identity is the sequence of its keys, root
/// first; every contract of this crate speaks of identities through that
/// model (`id@`).
#[derive(Debug, Hash, PartialOrd, Ord)]
pub struct ViewID {
    path: Vec<u64>,
}

impl View for ViewID {
    type V = Seq<u64>;

    closed spec fn view(&self) -> Seq<u64> {
        self.path@
    }
}

/// The path of the child reached from `parent` by `key`.
pub open spec fn child_path(parent: Seq<u64>, key: u64) -> Seq<u64> {
    parent.push(key)
}

/// The path reached from `base` by following `keys` in turn.
pub open spec fn descend_path(base: Seq<u64>, keys: Seq<u64>) -> Seq<u64>
    decreases keys.len(),
{
    if keys.len() == 0 {
        base
    } else {
        descend_path(child_path(base, keys[0]), keys.skip(1))
    }
}

/// The two paths agree on their first `k` keys, and what follows puts `a`
/// first: `a` ends there and `b` goes on, or `a` has the smaller key there.
pub open spec fn before_at(a: Seq<u64>, b: Seq<u64>, k: int) -> bool {
    &&& 0 <= k <= a.len()
    &&& k < b.len()
    &&& a.subrange(0, k) == b.subrange(0, k)
    &&& k < a.len() ==> a[k] < b[k]
}

/// `a` comes before `b` in the order of identities: at the first place where
/// the two paths differ `a` has the smaller key, or `a` ends there and `b`
/// goes on.
pub open spec fn path_before(a: Seq<u64>, b: Seq<u64>) -> bool {
    exists|k: int| before_at(a, b, k)
}

/// The set of the identities that occur in `ids`.
pub open spec fn path_set(ids: Seq<ViewID>) -> Set<Seq<u64>> {
    Set::new(|p: Seq<u64>| exists|i: int| 0 <= i < ids.len() && #[trigger] ids[i]@ == p)
}

/// Following `keys` from `base` gives the path `base` followed by `keys`.
pub proof fn lemma_descend_path(base: Seq<u64>, keys: Seq<u64>)
    ensures
        descend_path(base, keys) == base + keys,
    decreases keys.len(),
{
    if keys.len() == 0 {
        assert(base + keys == base);
    } else {
        lemma_descend_path(child_path(base, keys[0]), keys.skip(1));
        assert(base.push(keys[0]) + keys.skip(1) == base + keys);
    }
}

impl ViewID {
    /// The identity of the root of the tree: the empty path.
    pub fn root() -> (id: ViewID)
        ensures
            id@ == Seq::<u64>::empty(),
    {
        ViewID { path: Vec::new() }
    }

    /// The identity of the child that this node reaches by `key`.
    ///
    /// The result depends on `self` and `key` alone, so two walks of the same
    /// tree give every node the same identity.
    pub fn child(&self, key: u64) -> (id: ViewID)
        ensures
            id@ == child_path(self@, key),
    {
        let mut path = self.path.clone();
        assert(path@ == self.path@);
        path.push(key);
        ViewID { path }
    }

    /// The identity reached from this one by following `keys` in turn.
    pub fn descend(&self, keys: &Vec<u64>) -> (id: ViewID)
        ensures
            id@ == descend_path(self@, keys@),
    {
        let mut path = self.path.clone();
        assert(path@ == self.path@);
        let mut i: usize = 0;
        while i < keys.len()
            invariant
                i <= keys.len(),
                path@ == self.path@ + keys@.subrange(0, i as int),
            decreases keys.len() - i,
        {
            path.push(keys[i]);
            i = i + 1;
            assert(path@ == self.path@ + keys@.subrange(0, i as int));
        }
        proof {
            assert(keys@.subrange(0, i as int) == keys@);
            lemma_descend_path(self.path@, keys@);
        }
        ViewID { path }
    }

    /// The number of keys on the path; the root has depth 0.
    pub fn depth(&self) -> (n: usize)
        ensures
            n == self@.len(),
    {
        self.path.len()
    }

    /// Whether this is the identity of the root.
    pub fn is_root(&self) -> (b: bool)
        ensures
            b == (self@.len() == 0),
    {
        self.path.len() == 0
    }

    /// The key by which the parent reached this node; `None` at the root.
    pub fn key(&self) -> (k: Option<u64>)
        ensures
            self@.len() == 0 ==> k is None,
            self@.len() > 0 ==> k == Some(self@.last()),
    {
        let n = self.path.len();
        if n == 0 {
            None
        } else {
            Some(self.path[n - 1])
        }
    }

    /// The identity of the parent; `None` at the root.
    pub fn parent(&self) -> (p: Option<ViewID>)
        ensures
            self@.len() == 0 ==> p is None,
            self@.len() > 0 ==> p is Some && p->0@ == self@.drop_last(),
    {
        let n = self.path.len();
        if n == 0 {
            None
        } else {
            let mut path = self.path.clone();
            assert(path@ == self.path@);
            path.truncate(n - 1);
            Some(ViewID { path })
        }
    }

    /// The keys of the path, root first.
    pub fn keys(&self) -> (keys: Vec<u64>)
        ensures
            keys@ == self@,
    {
        let keys = self.path.clone();
        assert(keys@ == self.path@);
        keys
    }

    /// Whether `self` lies in the subtree rooted at `ancestor`: whether the
    /// path of `ancestor` is the beginning of the path of `self`. Every node
    /// lies in its own subtree.
    pub fn is_within(&self, ancestor: &ViewID) -> (b: bool)
        ensures
            b == ancestor@.is_prefix_of(self@),
    {
        let n = ancestor.path.len();
        if n > self.path.len() {
            return false;
        }
        let mut i: usize = 0;
        while i < n
            invariant
                n == ancestor.path@.len(),
                n <= self.path@.len(),
                i <= n,
                forall|j: int| 0 <= j < i ==> ancestor.path@[j] == self.path@[j],
            decreases n - i,
        {
            if ancestor.path[i] != self.path[i] {
                assert(self.path@.subrange(0, n as int)[i as int] != ancestor.path@[i as int]);
                return false;
            }
            i = i + 1;
        }
        assert(ancestor.path@ =~= self.path@.subrange(0, n as int));
        true
    }

    /// Whether this identity occurs in `ids`.
    pub fn occurs_in(&self, ids: &Vec<ViewID>) -> (b: bool)
        ensures
            b == path_set(ids@).contains(self@),
    {
        let mut i: usize = 0;
        while i < ids.len()
            invariant
                i <= ids.len(),
                forall|j: int| 0 <= j < i ==> #[trigger] ids@[j]@ != self@,
            decreases ids.len() - i,
        {
            if *self == ids[i] {
                assert(ids@[i as int]@ == self@);
                return true;
            }
            i = i + 1;
        }
        false
    }

    /// Whether `self` comes before `other` in the order of identities.
    ///
    /// The order compares two paths key by key from the root; a path comes
    /// before every path that continues it.
    pub fn precedes(&self, other: &ViewID) -> (b: bool)
        ensures
            b == path_before(self@, other@),
    {
        let n = self.path.len();
        let m = other.path.len();
        let mut i: usize = 0;
        while i < n && i < m
            invariant
                n == self.path@.len(),
                m == other.path@.len(),
                i <= n,
                i <= m,
                self.path@.subrange(0, i as int) == other.path@.subrange(0, i as int),
            decreases n - i,
        {
            let a = self.path[i];
            let b = other.path[i];
            if a != b {
                proof {
                    lemma_first_difference(self.path@, other.path@, i as int);
                }
                return a < b;
            }
            proof {
                assert(self.path@.subrange(0, i + 1) == self.path@.subrange(0, i as int).push(a));
                assert(other.path@.subrange(0, i + 1) == other.path@.subrange(0, i as int).push(
                    b,
                ));
            }
            i = i + 1;
        }
        proof {
            lemma_common_prefix(self.path@, other.path@, i as int);
        }
        n < m
    }
}

impl Clone for ViewID {
    fn clone(&self) -> (id: ViewID)
        ensures
            id@ == self@,
    {
        let path = self.path.clone();
        assert(path@ == self.path@);
        ViewID { path }
    }
}

impl PartialEq for ViewID {
    fn eq(&self, other: &ViewID) -> (b: bool) {
        let n = self.path.len();
        if n != other.path.len() {
            return false;
        }
        let mut i: usize = 0;
        while i < n
            invariant
                n == self.path@.len(),
                n == other.path@.len(),
                i <= n,
                forall|j: int| 0 <= j < i ==> self.path@[j] == other.path@[j],
            decreases n - i,
        {
            if self.path[i] != other.path[i] {
                return false;
            }
            i = i + 1;
        }
        assert(self.path@ =~= other.path@);
        true
    }
}

impl vstd::std_specs::cmp::PartialEqSpecImpl for ViewID {
    open spec fn obeys_eq_spec() -> bool {
        true
    }

    open spec fn eq_spec(&self, other: &ViewID) -> bool {
        self@ == other@
    }
}

impl Eq for ViewID {

}

/// No path comes before itself.
pub proof fn lemma_order_irreflexive(a: Seq<u64>)
    ensures
        !path_before(a, a),
{
    if path_before(a, a) {
        let k = choose|k: int| before_at(a, a, k);
    }
}

/// The length of the longest common beginning of two paths, counted from
/// `k`, up to which they are known to agree.
spec fn agree_from(a: Seq<u64>, b: Seq<u64>, k: int) -> int
    decreases a.len() - k,
{
    if 0 <= k < a.len() && k < b.len() && a[k] == b[k] {
        agree_from(a, b, k + 1)
    } else {
        k
    }
}

proof fn lemma_agree_from(a: Seq<u64>, b: Seq<u64>, k: int)
    requires
        0 <= k <= a.len(),
        k <= b.len(),
        a.subrange(0, k) == b.subrange(0, k),
    ensures
        k <= agree_from(a, b, k) <= a.len(),
        agree_from(a, b, k) <= b.len(),
        a.subrange(0, agree_from(a, b, k)) == b.subrange(0, agree_from(a, b, k)),
        agree_from(a, b, k) < a.len() && agree_from(a, b, k) < b.len() ==> a[agree_from(a, b, k)]
            != b[agree_from(a, b, k)],
    decreases a.len() - k,
{
    if k < a.len() && k < b.len() && a[k] == b[k] {
        assert(a.subrange(0, k + 1) == a.subrange(0, k).push(a[k]));
        assert(b.subrange(0, k + 1) == b.subrange(0, k).push(b[k]));
        lemma_agree_from(a, b, k + 1);
    }
}

/// Of two different paths exactly one comes before the other.
pub proof fn lemma_order_total(a: Seq<u64>, b: Seq<u64>)
    ensures
        a != b ==> (path_before(a, b) <==> !path_before(b, a)),
        a == b ==> !path_before(a, b),
{
    if a == b {
        lemma_order_irreflexive(a);
    } else {
        assert(a.subrange(0, 0) == b.subrange(0, 0));
        lemma_agree_from(a, b, 0);
        let k = agree_from(a, b, 0);
        if k < a.len() && k < b.len() {
            lemma_first_difference(a, b, k);
            lemma_first_difference(b, a, k);
        } else {
            lemma_common_prefix(a, b, k);
            lemma_common_prefix(b, a, k);
            if a.len() == b.len() {
                assert(a =~= a.subrange(0, k));
                assert(b =~= b.subrange(0, k));
            }
        }
    }
}

/// The order of paths is transitive.
pub proof fn lemma_order_transitive(a: Seq<u64>, b: Seq<u64>, c: Seq<u64>)
    requires
        path_before(a, b),
        path_before(b, c),
    ensures
        path_before(a, c),
{
    let i = choose|i: int| before_at(a, b, i);
    let j = choose|j: int| before_at(b, c, j);
    let k = if i <= j {
        i
    } else {
        j
    };
    assert(a.subrange(0, k) =~= c.subrange(0, k)) by {
        assert forall|n: int| 0 <= n < k implies a[n] == c[n] by {
            assert(a.subrange(0, i)[n] == a[n]);
            assert(b.subrange(0, i)[n] == b[n]);
            assert(b.subrange(0, j)[n] == b[n]);
            assert(c.subrange(0, j)[n] == c[n]);
        }
    }
    if i < j {
        assert(b.subrange(0, j)[i] == b[i]);
        assert(c.subrange(0, j)[i] == c[i]);
    } else if j < i {
        assert(a.subrange(0, i)[j] == a[j]);
        assert(b.subrange(0, i)[j] == b[j]);
    }
    assert(before_at(a, c, k));
}

/// Two paths that agree before `k` and differ at `k` are ordered by their
/// keys at `k`.
proof fn lemma_first_difference(a: Seq<u64>, b: Seq<u64>, k: int)
    requires
        0 <= k < a.len(),
        k < b.len(),
        a.subrange(0, k) == b.subrange(0, k),
        a[k] != b[k],
    ensures
        path_before(a, b) == (a[k] < b[k]),
{
    if a[k] < b[k] {
        assert(before_at(a, b, k));
    } else if path_before(a, b) {
        let j = choose|j: int| before_at(a, b, j);
        if j > k {
            assert(a.subrange(0, j)[k] == a[k]);
            assert(b.subrange(0, j)[k] == b[k]);
        } else if j < k {
            assert(a.subrange(0, k)[j] == a[j]);
            assert(b.subrange(0, k)[j] == b[j]);
        }
    }
}

/// Two paths that agree on the whole of the shorter one are ordered by their
/// lengths.
proof fn lemma_common_prefix(a: Seq<u64>, b: Seq<u64>, k: int)
    requires
        0 <= k <= a.len(),
        k <= b.len(),
        k == a.len() || k == b.len(),
        a.subrange(0, k) == b.subrange(0, k),
    ensures
        path_before(a, b) == (a.len() < b.len()),
{
    if a.len() < b.len() {
        assert(before_at(a, b, k));
    } else if path_before(a, b) {
        let j = choose|j: int| before_at(a, b, j);
        assert(a.subrange(0, k)[j] == a[j]);
        assert(b.subrange(0, k)[j] == b[j]);
    }
}

} // verus!
