//! Bounded pools of integer ids (file descriptors, ports) handed out as
//! move-only guards.
use vstd::prelude::*;

verus! {

/// An id of a pool: a file descriptor or a port.
pub type Fd = u64;

/// Ownership of one id of a pool. While the guard lives the id is held;
/// handing the guard back to its pool releases the id exactly once.
/// The guard is deliberately not `Clone`.
#[derive(Debug, PartialEq, Eq, Hash)]
pub struct DescriptorGuard {
    id: Fd,
}

impl View for DescriptorGuard {
    type V = Fd;

    closed spec fn view(&self) -> Fd {
        self.id
    }
}

impl DescriptorGuard {
    /// Wraps `id` in a guard.
    pub fn new(id: Fd) -> (r: Self)
        ensures
            r@ == id,
    {
        DescriptorGuard { id }
    }

    /// The wrapped id.
    pub fn id(&self) -> (r: Fd)
        ensures
            r == self@,
    {
        self.id
    }
}

/// The ids `lo..=hi` in increasing order.
pub open spec fn range_seq(lo: Fd, hi: Fd) -> Seq<Fd> {
    if lo <= hi {
        Seq::new((hi - lo + 1) as nat, |j: int| (lo + j) as Fd)
    } else {
        Seq::empty()
    }
}

/// Number of ids in `lo..=hi`.
pub open spec fn range_len(lo: Fd, hi: Fd) -> nat {
    if lo <= hi {
        (hi - lo + 1) as nat
    } else {
        0
    }
}

/// `q` is `p` after the id `id` moved from the available ids to the held ones.
pub open spec fn claimed(p: DescriptorGuardManager, q: DescriptorGuardManager, id: Fd) -> bool {
    &&& p.available().contains(id)
    &&& p.in_range(id)
    &&& !p.held().contains(id)
    &&& q.available().to_set() == p.available().to_set().remove(id)
    &&& q.available().len() + 1 == p.available().len()
    &&& q.held() == p.held().insert(id)
    &&& q.lo() == p.lo() && q.hi() == p.hi()
}

/// `q` holds the same ids as `p`, in the same order.
pub open spec fn same_ids(p: DescriptorGuardManager, q: DescriptorGuardManager) -> bool {
    &&& q.available() == p.available()
    &&& q.held() == p.held()
    &&& q.lo() == p.lo() && q.hi() == p.hi()
}

/// `q` is `p` after the held id `id` was handed back.
pub open spec fn released(p: DescriptorGuardManager, q: DescriptorGuardManager, id: Fd) -> bool {
    &&& p.held().contains(id)
    &&& q.available() == p.available().push(id)
    &&& q.held() == p.held().remove(id)
    &&& q.lo() == p.lo() && q.hi() == p.hi()
}

/// Removing the element at `i` of a sequence without duplicates removes
/// exactly that value.
proof fn lemma_remove_at(s: Seq<Fd>, i: int)
    requires
        s.no_duplicates(),
        0 <= i < s.len(),
    ensures
        s.remove(i).no_duplicates(),
        s.remove(i).len() + 1 == s.len(),
        forall|x: Fd| #[trigger] s.remove(i).contains(x) <==> (s.contains(x) && x != s[i]),
        s.remove(i).to_set() == s.to_set().remove(s[i]),
{
    let r = s.remove(i);
    s.remove_ensures(i);
    assert forall|x: Fd| #[trigger] r.contains(x) <==> (s.contains(x) && x != s[i]) by {
        if r.contains(x) {
            let k = choose|k: int| 0 <= k < r.len() && r[k] == x;
            if k < i {
                assert(s[k] == x);
            } else {
                assert(s[k + 1] == x);
            }
        }
        if s.contains(x) && x != s[i] {
            let k = choose|k: int| 0 <= k < s.len() && s[k] == x;
            if k < i {
                assert(r[k] == x);
            } else {
                assert(r[k - 1] == x);
            }
        }
    }
    assert forall|a: int, b: int| 0 <= a < b < r.len() implies r[a] != r[b] by {
        let a2 = if a < i { a } else { a + 1 };
        let b2 = if b < i { b } else { b + 1 };
        assert(r[a] == s[a2] && r[b] == s[b2]);
    }
    assert(r.to_set() =~= s.to_set().remove(s[i]));
}

/// Appending a value that is absent keeps a sequence free of duplicates.
proof fn lemma_push_fresh(s: Seq<Fd>, v: Fd)
    requires
        s.no_duplicates(),
        !s.contains(v),
    ensures
        s.push(v).no_duplicates(),
        forall|x: Fd| #[trigger] s.push(v).contains(x) <==> (s.contains(x) || x == v),
{
    let r = s.push(v);
    assert forall|x: Fd| #[trigger] r.contains(x) <==> (s.contains(x) || x == v) by {
        if r.contains(x) {
            let k = choose|k: int| 0 <= k < r.len() && r[k] == x;
            if k < s.len() {
                assert(s[k] == x);
            }
        }
        if s.contains(x) {
            let k = choose|k: int| 0 <= k < s.len() && s[k] == x;
            assert(r[k] == x);
        }
        if x == v {
            assert(r[s.len() as int] == v);
        }
    }
    assert forall|a: int, b: int| 0 <= a < b < r.len() implies r[a] != r[b] by {
        if b == s.len() {
            assert(s[a] == r[a]);
        }
    }
}

/// A pool over the inclusive range `lo..=hi`. Every id of the range is
/// either available here or held by exactly one outstanding guard.
/// Exclusive access (`&mut self`) serialises every operation on the pool.
pub struct DescriptorGuardManager {
    lo: Fd,
    hi: Fd,
    available: Vec<Fd>,
    held: Ghost<Set<Fd>>,
}

impl DescriptorGuardManager {
    /// Lowest id of the range.
    pub closed spec fn lo(&self) -> Fd {
        self.lo
    }

    /// Highest id of the range.
    pub closed spec fn hi(&self) -> Fd {
        self.hi
    }

    /// The available ids, in the order in which they are kept.
    pub closed spec fn available(&self) -> Seq<Fd> {
        self.available@
    }

    /// The ids that outstanding guards hold.
    pub closed spec fn held(&self) -> Set<Fd> {
        self.held@
    }

    pub open spec fn in_range(&self, id: Fd) -> bool {
        self.lo() <= id <= self.hi()
    }

    pub closed spec fn wf(&self) -> bool {
        &&& self.available@.no_duplicates()
        &&& self.held@.finite()
        &&& forall|x: Fd| #[trigger] self.held@.contains(x) ==> !self.available@.contains(x)
        &&& forall|x: Fd|
            self.lo <= x <= self.hi <==> (#[trigger] self.available@.contains(x)
                || self.held@.contains(x))
        &&& self.available@.len() + self.held@.len() == range_len(self.lo, self.hi)
    }

    /// A pool over `lo..=hi` with every id available.
    pub fn new(lo: Fd, hi: Fd) -> (r: Self)
        ensures
            r.wf(),
            r.lo() == lo,
            r.hi() == hi,
            r.available() == range_seq(lo, hi),
            r.held() == Set::<Fd>::empty(),
    {
        let mut available: Vec<Fd> = Vec::new();
        if lo <= hi {
            let mut id: Fd = lo;
            loop
                invariant_except_break
                    lo <= id <= hi,
                    available@ == Seq::new((id - lo) as nat, |j: int| (lo + j) as Fd),
                ensures
                    available@ == range_seq(lo, hi),
                decreases hi - id,
            {
                available.push(id);
                if id == hi {
                    assert(available@ =~= range_seq(lo, hi));
                    break;
                }
                id = id + 1;
                assert(available@ =~= Seq::new((id - lo) as nat, |j: int| (lo + j) as Fd));
            }
        }
        let r = DescriptorGuardManager { lo, hi, available, held: Ghost(Set::empty()) };
        proof {
            assert(r.available@ =~= range_seq(lo, hi));
            assert forall|x: Fd| lo <= x <= hi implies r.available@.contains(x) by {
                assert(r.available@[x - lo] == x);
            }
        }
        r
    }

    /// Claims the specific id `id`: `Some` exactly when it is available.
    pub fn register(&mut self, id: Fd) -> (r: Option<DescriptorGuard>)
        requires
            old(self).wf(),
        ensures
            final(self).wf(),
            r.is_some() == old(self).available().contains(id),
            r.is_some() ==> r.unwrap()@ == id && claimed(*old(self), *final(self), id),
            r.is_none() ==> *final(self) == *old(self),
    {
        // Scan from the most recently freed id: a port that was just handed
        // back is found at once.
        let mut i: usize = self.available.len();
        while i > 0
            invariant
                self.wf(),
                *self == *old(self),
                i <= self.available@.len(),
                forall|j: int| i <= j < self.available@.len() ==> self.available@[j] != id,
            decreases i,
        {
            i = i - 1;
            if self.available[i] == id {
                proof {
                    lemma_remove_at(self.available@, i as int);
                    assert(!self.held@.contains(id));
                    assert(self.held@.insert(id).len() == self.held@.len() + 1);
                }
                let ghost s = self.available@;
                self.available.remove(i);
                self.held = Ghost(self.held@.insert(id));
                proof {
                    assert(self.available@ == s.remove(i as int));
                    assert(forall|x: Fd| #[trigger] self.held@.contains(x) ==> !self.available@.contains(x));
                    assert(forall|x: Fd|
                        self.lo <= x <= self.hi <==> (#[trigger] self.available@.contains(x)
                            || self.held@.contains(x)));
                    assert(old(self).available().contains(id)) by {
                        assert(s[i as int] == id);
                    }
                }
                return Some(DescriptorGuard { id });
            }
        }
        None
    }

    /// Claims an arbitrary available id: `None` exactly when none is left.
    /// The id handed out is the one most recently made available.
    pub fn ephemeral(&mut self) -> (r: Option<DescriptorGuard>)
        requires
            old(self).wf(),
        ensures
            final(self).wf(),
            r.is_some() == (old(self).available().len() > 0),
            r.is_some() ==> r.unwrap()@ == old(self).available().last() && claimed(
                *old(self),
                *final(self),
                r.unwrap()@,
            ) && final(self).available() == old(self).available().drop_last(),
            r.is_none() ==> *final(self) == *old(self),
    {
        if self.available.len() == 0 {
            return None;
        }
        let ghost s = self.available@;
        let ghost last_index = s.len() - 1;
        proof {
            lemma_remove_at(s, last_index);
            assert(s.remove(last_index) =~= s.drop_last());
            assert(!self.held@.contains(s.last()));
            assert(self.held@.insert(s.last()).len() == self.held@.len() + 1);
            assert(s.drop_last() =~= s.subrange(0, last_index));
        }
        match self.available.pop() {
            Some(id) => {
                self.held = Ghost(self.held@.insert(id));
                proof {
                    assert(self.available@ == s.remove(last_index));
                    assert(self.available@.no_duplicates());
                    assert(self.held@.finite());
                    assert(forall|x: Fd| #[trigger] self.held@.contains(x) ==> !self.available@.contains(x));
                    assert(forall|x: Fd|
                        self.lo <= x <= self.hi <==> (#[trigger] self.available@.contains(x)
                            || self.held@.contains(x)));
                }
                Some(DescriptorGuard { id })
            },
            None => None,
        }
    }

    /// Hands a guard back: its id becomes available again, last in order.
    pub fn release(&mut self, id: DescriptorGuard)
        requires
            old(self).wf(),
            old(self).held().contains(id@),
        ensures
            final(self).wf(),
            released(*old(self), *final(self), id@),
    {
        let DescriptorGuard { id } = id;
        proof {
            lemma_push_fresh(self.available@, id);
        }
        self.available.push(id);
        self.held = Ghost(self.held@.remove(id));
    }
}


/// Conservation: in a well-formed pool the held ids and the available ids
/// together are exactly the range, with no id in both, and their counts add
/// up to the size of the range.
pub proof fn lemma_conservation(p: DescriptorGuardManager)
    requires
        p.wf(),
    ensures
        p.held().len() + p.available().len() == range_len(p.lo(), p.hi()),
        forall|x: Fd| p.in_range(x) <==> (p.held().contains(x) || p.available().contains(x)),
        forall|x: Fd| !(p.held().contains(x) && p.available().contains(x)),
{
}

/// Uniqueness: an id handed out is never one that a live guard holds, so two
/// claims with no release between them hand out different ids.
pub proof fn lemma_claims_distinct(
    p0: DescriptorGuardManager,
    p1: DescriptorGuardManager,
    p2: DescriptorGuardManager,
    a: Fd,
    b: Fd,
)
    requires
        p0.wf(),
        p1.wf(),
        claimed(p0, p1, a),
        claimed(p1, p2, b),
    ensures
        !p0.held().contains(a),
        !p1.held().contains(b),
        a != b,
{
}

/// Round trip: after claiming `x` and handing its guard back, `x` is
/// available again, so a later claim of `x` succeeds.
pub proof fn lemma_round_trip(
    p0: DescriptorGuardManager,
    p1: DescriptorGuardManager,
    p2: DescriptorGuardManager,
    x: Fd,
)
    requires
        p0.wf(),
        claimed(p0, p1, x),
        released(p1, p2, x),
    ensures
        p2.available().contains(x),
        p2.held() == p0.held(),
{
    assert(p2.available().last() == x);
    assert(p2.held() =~= p0.held());
}

/// Exhaustion: starting from a fresh pool over `lo..=hi`, every successful
/// claim with no release between takes one id, so exactly `hi - lo + 1` claims
/// succeed and then none is left.
pub proof fn lemma_exhaustion(ps: Seq<DescriptorGuardManager>, ids: Seq<Fd>)
    requires
        ps.len() == ids.len() + 1,
        ps[0].wf(),
        ps[0].held().is_empty(),
        forall|i: int| 0 <= i < ids.len() ==> claimed(#[trigger] ps[i], ps[i + 1], ids[i]),
    ensures
        ids.len() <= range_len(ps[0].lo(), ps[0].hi()),
        ps.last().available().len() + ids.len() == range_len(ps[0].lo(), ps[0].hi()),
        ids.len() == range_len(ps[0].lo(), ps[0].hi()) ==> ps.last().available().len() == 0,
    decreases ids.len(),
{
    if ids.len() == 0 {
        assert(ps[0].held().len() == 0);
    } else {
        let n = ids.len() - 1;
        lemma_exhaustion(ps.subrange(0, n + 1), ids.subrange(0, n));
        assert(ps.subrange(0, n + 1).last() == ps[n]);
        assert(claimed(ps[n], ps[n + 1], ids[n]));
    }
}

} // verus!
