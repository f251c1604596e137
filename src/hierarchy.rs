use crate::entity::{index_span, Entity};
use vstd::prelude::*;

verus! {

/// Why a change to the hierarchy was refused. A refused change leaves the
/// hierarchy as it was.
#[derive(Clone, Copy, Debug, PartialEq, Eq, Structural)]
pub enum HierarchyError {
    /// The entity does not exist in the hierarchy.
    NoEntity,
    /// The parent does not exist in the hierarchy, or cannot take the entity.
    InvalidParent,
    /// The sibling does not exist in the hierarchy, or has another parent.
    InvalidSibling,
    /// The entity is null.
    NullEntity,
    /// The desired sibling is already in place.
    AlreadySibling,
    /// The entity is already the first child.
    AlreadyFirstChild,
}

/// The `k`-th ancestor slot of slot `i` along `parents` (slot `i` itself for `k == 0`).
pub open spec fn ancestor(parents: Seq<Option<Entity>>, i: int, k: nat) -> Option<int>
    decreases k,
{
    if k == 0 {
        Some(i)
    } else if 0 <= i < parents.len() {
        match parents[i] {
            Some(q) => ancestor(parents, q.index_spec() as int, (k - 1) as nat),
            None => None,
        }
    } else {
        None
    }
}

/// Slot `i` lies in the subtree of slot `a` (a slot lies in its own subtree).
pub open spec fn descends(parents: Seq<Option<Entity>>, i: int, a: int) -> bool {
    exists|k: nat| ancestor(parents, i, k) == Some(a)
}

/// The tree of entities: for each slot (an entity's index) its parent, first
/// child and the siblings on either side.
///
/// Each parent's children form a chain from its first child along the next
/// siblings, and back along the previous siblings. Slot 0 is the root, which has
/// no parent. A removed entity keeps its own children and forms a separate
/// subtree until it is added again.
///
/// Links are kept by slot: the hierarchy does not compare generations, so
/// callers check that an entity is alive before handing it in.
pub struct Hierarchy {
    parent: Vec<Option<Entity>>,
    first_child: Vec<Option<Entity>>,
    next_sibling: Vec<Option<Entity>>,
    prev_sibling: Vec<Option<Entity>>,
    changed: bool,
    /// The children of each slot, in order: what the links encode.
    kids: Ghost<Seq<Seq<Entity>>>,
    /// Each attached slot's place among its parent's children.
    pos: Ghost<Seq<int>>,
    /// A number that grows from parent to child, so that parent links never
    /// form a cycle.
    rank: Ghost<Seq<nat>>,
}

impl Hierarchy {
    /// Set by every change of the links, so that caches built on them can tell.
    pub closed spec fn changed_spec(&self) -> bool {
        self.changed
    }

    /// The number of slots.
    pub open spec fn len(&self) -> nat {
        self.parents().len()
    }

    /// The children of slot `i`, in order.
    pub closed spec fn children(&self, i: int) -> Seq<Entity> {
        self.kids@[i]
    }

    /// The parent of slot `i`, if it has one.
    pub open spec fn parent_of(&self, i: int) -> Option<Entity> {
        self.parents()[i]
    }

    /// Where slot `i` stands among its parent's children.
    pub closed spec fn position(&self, i: int) -> int {
        self.pos@[i]
    }

    /// The parent link of every slot.
    pub closed spec fn parents(&self) -> Seq<Option<Entity>> {
        self.parent@
    }

    /// The rank of every slot: below a parent, every child ranks higher.
    pub closed spec fn ranks(&self) -> Seq<nat> {
        self.rank@
    }

    /// The entity is not null and has a slot.
    pub open spec fn holds(&self, e: Entity) -> bool {
        !e.is_null_spec() && e.index_spec() < self.len()
    }

    pub open spec fn slot(e: Entity) -> int {
        e.index_spec() as int
    }

    /// The sibling after slot `i`.
    pub open spec fn next_of(&self, i: int) -> Option<Entity> {
        match self.parent_of(i) {
            Some(q) => {
                let s = self.children(Self::slot(q));
                if self.position(i) + 1 < s.len() {
                    Some(s[self.position(i) + 1])
                } else {
                    None
                }
            },
            None => None,
        }
    }

    /// The sibling before slot `i`.
    pub open spec fn prev_of(&self, i: int) -> Option<Entity> {
        match self.parent_of(i) {
            Some(q) => {
                if self.position(i) > 0 {
                    Some(self.children(Self::slot(q))[self.position(i) - 1])
                } else {
                    None
                }
            },
            None => None,
        }
    }

    /// The first child of slot `i`.
    pub open spec fn first_of(&self, i: int) -> Option<Entity> {
        if self.children(i).len() > 0 {
            Some(self.children(i)[0])
        } else {
            None
        }
    }

    /// The links of slot `i` agree with its place among its parent's children.
    pub closed spec fn parent_ok(&self, i: int) -> bool {
        let n = self.parent@.len();
        match self.parent@[i] {
            None => self.prev_sibling@[i] is None && self.next_sibling@[i] is None,
            Some(q) => {
                let p = q.index_spec() as int;
                &&& !q.is_null_spec()
                &&& p < n
                &&& 0 <= self.pos@[i] < self.kids@[p].len()
                &&& self.kids@[p][self.pos@[i]].index_spec() == i
                &&& self.rank@[p] < self.rank@[i]
            },
        }
    }

    /// The `j`-th child of slot `p` links back to `p` and to its neighbours.
    pub closed spec fn kid_ok(&self, p: int, j: int) -> bool {
        let n = self.parent@.len();
        let s = self.kids@[p];
        let c = s[j];
        let ci = c.index_spec() as int;
        &&& !c.is_null_spec()
        &&& ci < n
        &&& self.parent@[ci] matches Some(q) && q.index_spec() == p
        &&& self.pos@[ci] == j
        &&& self.prev_sibling@[ci] == (if j == 0 { None } else { Some(s[j - 1]) })
        &&& self.next_sibling@[ci] == (if j + 1 == s.len() { None } else { Some(s[j + 1]) })
    }

    pub closed spec fn first_ok(&self, p: int) -> bool {
        self.first_child@[p] == (if self.kids@[p].len() == 0 { None } else { Some(self.kids@[p][0]) })
    }

    pub closed spec fn wf(&self) -> bool {
        let n = self.parent@.len();
        &&& 1 <= n <= index_span()
        &&& self.first_child@.len() == n
        &&& self.next_sibling@.len() == n
        &&& self.prev_sibling@.len() == n
        &&& self.kids@.len() == n
        &&& self.pos@.len() == n
        &&& self.rank@.len() == n
        &&& self.parent@[0] is None
        &&& forall|i: int| 0 <= i < n ==> #[trigger] self.parent_ok(i)
        &&& forall|p: int, j: int| 0 <= p < n && 0 <= j < self.kids@[p].len() ==> #[trigger] self.kid_ok(p, j)
        &&& forall|p: int| 0 <= p < n ==> #[trigger] self.first_ok(p)
    }

    /// Creates a hierarchy that holds the root alone.
    pub fn new() -> (r: Hierarchy)
        ensures
            r.wf(),
            r.len() == 1,
            r.children(0) == Seq::<Entity>::empty(),
            r.parent_of(0) is None,
            !r.changed_spec(),
    {
        let ghost kids0 = seq![Seq::<Entity>::empty()];
        let ghost pos0 = seq![0int];
        let ghost rank0 = seq![0nat];
        let r = Hierarchy {
            parent: vec![None],
            first_child: vec![None],
            next_sibling: vec![None],
            prev_sibling: vec![None],
            changed: false,
            kids: Ghost(kids0),
            pos: Ghost(pos0),
            rank: Ghost(rank0),
        };
        assert(r.parent_ok(0));
        assert(r.first_ok(0));
        r
    }

    /// Whether the links changed since the flag was last cleared.
    pub fn changed(&self) -> (r: bool)
        ensures
            r == self.changed_spec(),
    {
        self.changed
    }

    /// Clears the change flag, once the change has been taken into account.
    pub fn clear_changed(&mut self)
        requires
            old(self).wf(),
        ensures
            final(self).wf(),
            !final(self).changed_spec(),
            final(self).same_links(old(self)),
    {
        self.changed = false;
        proof {
            self.lemma_wf_ignores_flag(old(self));
        }
    }

    /// Well-formedness does not depend on the change flag.
    proof fn lemma_wf_ignores_flag(&self, other: &Hierarchy)
        requires
            other.wf(),
            self.parent == other.parent,
            self.first_child == other.first_child,
            self.next_sibling == other.next_sibling,
            self.prev_sibling == other.prev_sibling,
            self.kids == other.kids,
            self.pos == other.pos,
            self.rank == other.rank,
        ensures
            self.wf(),
            self.same_links(other),
    {
        assert forall|i: int| 0 <= i < self.len() implies #[trigger] self.parent_ok(i) by {
            assert(other.parent_ok(i));
        }
        assert forall|p: int, j: int| 0 <= p < self.len() && 0 <= j < self.kids@[p].len() implies #[trigger] self.kid_ok(p, j) by {
            assert(other.kid_ok(p, j));
        }
        assert forall|p: int| 0 <= p < self.len() implies #[trigger] self.first_ok(p) by {
            assert(other.first_ok(p));
        }
    }

    /// Two hierarchies with the same slots and links.
    pub open spec fn same_links(&self, other: &Hierarchy) -> bool {
        &&& self.len() == other.len()
        &&& forall|i: int| 0 <= i < self.len() ==> #[trigger] self.children(i) == other.children(i)
            && self.parent_of(i) == other.parent_of(i) && self.position(i) == other.position(i)
    }

    /// Facts about the links of slot `i` that follow from well-formedness.
    proof fn lemma_links(&self, i: int)
        requires
            self.wf(),
            0 <= i < self.len(),
        ensures
            self.next_sibling@[i] == self.next_of(i),
            self.prev_sibling@[i] == self.prev_of(i),
            self.first_child@[i] == self.first_of(i),
            self.parent_of(i) matches Some(q) ==> {
                &&& self.holds(q)
                &&& self.ranks()[Self::slot(q)] < self.ranks()[i]
                &&& 0 <= self.position(i) < self.children(Self::slot(q)).len()
                &&& self.children(Self::slot(q))[self.position(i)].index_spec() == i
            },
            forall|j: int| 0 <= j < self.children(i).len() ==> {
                let c = #[trigger] self.children(i)[j];
                &&& self.holds(c)
                &&& self.parent_of(Self::slot(c)) matches Some(q) && q.index_spec() == i
                &&& self.position(Self::slot(c)) == j
            },
    {
        assert(self.parent_ok(i));
        assert(self.first_ok(i));
        if let Some(q) = self.parent@[i] {
            assert(self.kid_ok(q.index_spec() as int, self.pos@[i]));
        }
        assert forall|j: int| 0 <= j < self.children(i).len() implies {
            let c = #[trigger] self.children(i)[j];
            &&& self.holds(c)
            &&& self.parent_of(Self::slot(c)) matches Some(q) && q.index_spec() == i
            &&& self.position(Self::slot(c)) == j
        } by {
            assert(self.kid_ok(i, j));
        }
    }

    /// Each child of slot `p` is held, has `p` as its parent, and stands at its
    /// own position.
    pub proof fn lemma_children_placed(&self, p: int)
        requires
            self.wf(),
            0 <= p < self.len(),
        ensures
            forall|j: int| 0 <= j < self.children(p).len() ==> {
                let c = #[trigger] self.children(p)[j];
                &&& self.holds(c)
                &&& self.parent_of(Self::slot(c)) matches Some(q) && q.index_spec() == p
                &&& self.position(Self::slot(c)) == j
            },
    {
        self.lemma_links(p);
    }

    /// A slot with a parent stands among that parent's children.
    pub proof fn lemma_parent_placed(&self, x: int)
        requires
            self.wf(),
            0 <= x < self.len(),
            self.parent_of(x) is Some,
        ensures
            ({
                let q = Self::slot(self.parent_of(x).unwrap());
                &&& self.holds(self.parent_of(x).unwrap())
                &&& 0 <= self.position(x) < self.children(q).len()
                &&& self.children(q)[self.position(x)].index_spec() == x
            }),
    {
        self.lemma_links(x);
    }

    /// Only the slot itself lies in the subtree of a slot without children.
    pub proof fn lemma_leaf_subtree(&self, i: int, a: int)
        requires
            self.wf(),
            0 <= i < self.len(),
            descends(self.parents(), i, a),
            0 <= a < self.len() ==> self.children(a).len() == 0,
        ensures
            i == a,
    {
        if i != a {
            let k = choose|k: nat| ancestor(self.parents(), i, k) == Some(a);
            self.lemma_descends_has_child(i, a, k);
        }
    }

    /// The children of a slot have distinct slots.
    proof fn lemma_kids_distinct(&self, p: int, j1: int, j2: int)
        requires
            self.wf(),
            0 <= p < self.len(),
            0 <= j1 < self.children(p).len(),
            0 <= j2 < self.children(p).len(),
            j1 != j2,
        ensures
            self.children(p)[j1].index_spec() != self.children(p)[j2].index_spec(),
    {
        assert(self.kid_ok(p, j1));
        assert(self.kid_ok(p, j2));
    }

    /// Returns the parent of an entity.
    pub fn get_parent(&self, entity: Entity) -> (r: Option<Entity>)
        requires
            self.wf(),
        ensures
            r == (if self.holds(entity) { self.parent_of(Self::slot(entity)) } else { None }),
    {
        if entity.is_null() {
            return None;
        }
        let index = entity.index_unchecked();
        if index >= self.parent.len() {
            None
        } else {
            self.parent[index]
        }
    }

    /// Returns the first child of an entity.
    pub fn get_first_child(&self, entity: Entity) -> (r: Option<Entity>)
        requires
            self.wf(),
        ensures
            r == (if self.holds(entity) { self.first_of(Self::slot(entity)) } else { None }),
    {
        if entity.is_null() {
            return None;
        }
        let index = entity.index_unchecked();
        if index >= self.parent.len() {
            None
        } else {
            proof {
                self.lemma_links(index as int);
            }
            self.first_child[index]
        }
    }

    /// Returns the next sibling of an entity.
    pub fn get_next_sibling(&self, entity: Entity) -> (r: Option<Entity>)
        requires
            self.wf(),
        ensures
            r == (if self.holds(entity) { self.next_of(Self::slot(entity)) } else { None }),
    {
        if entity.is_null() {
            return None;
        }
        let index = entity.index_unchecked();
        if index >= self.parent.len() {
            None
        } else {
            proof {
                self.lemma_links(index as int);
            }
            self.next_sibling[index]
        }
    }

    /// Returns the previous sibling of an entity.
    pub fn get_prev_sibling(&self, entity: Entity) -> (r: Option<Entity>)
        requires
            self.wf(),
        ensures
            r == (if self.holds(entity) { self.prev_of(Self::slot(entity)) } else { None }),
    {
        if entity.is_null() {
            return None;
        }
        let index = entity.index_unchecked();
        if index >= self.parent.len() {
            None
        } else {
            proof {
                self.lemma_links(index as int);
            }
            self.prev_sibling[index]
        }
    }

    /// Returns the last child of an entity, walking its children.
    pub fn get_last_child(&self, entity: Entity) -> (r: Option<Entity>)
        requires
            self.wf(),
        ensures
            r == (if self.holds(entity) && self.children(Self::slot(entity)).len() > 0 {
                Some(self.children(Self::slot(entity)).last())
            } else {
                None
            }),
    {
        if entity.is_null() || entity.index_unchecked() >= self.parent.len() {
            return None;
        }
        let index = entity.index_unchecked();
        let ghost s = self.children(index as int);
        proof {
            self.lemma_links(index as int);
        }
        let mut f = self.first_child[index];
        let mut r: Option<Entity> = None;
        let ghost mut j: int = 0;
        while f.is_some()
            invariant
                self.wf(),
                0 <= j <= s.len(),
                s == self.children(index as int),
                index < self.len(),
                f == (if j < s.len() { Some(s[j]) } else { None::<Entity> }),
                r == (if j == 0 { None } else { Some(s[j - 1]) }),
            decreases s.len() - j,
        {
            let c = f.unwrap();
            proof {
                self.lemma_links(index as int);
                self.lemma_links(Self::slot(c));
            }
            r = f;
            f = self.next_sibling[c.index_unchecked()];
            proof {
                j = j + 1;
            }
        }
        r
    }

    /// Returns the `n`-th child of an entity, counting from 0.
    pub fn get_child(&self, entity: Entity, n: usize) -> (r: Option<Entity>)
        requires
            self.wf(),
        ensures
            r == (if self.holds(entity) && n < self.children(Self::slot(entity)).len() {
                Some(self.children(Self::slot(entity))[n as int])
            } else {
                None
            }),
    {
        if entity.is_null() || entity.index_unchecked() >= self.parent.len() {
            return None;
        }
        let index = entity.index_unchecked();
        let ghost s = self.children(index as int);
        proof {
            self.lemma_links(index as int);
        }
        let mut f = self.first_child[index];
        let mut i: usize = 0;
        while f.is_some()
            invariant
                self.wf(),
                0 <= i <= s.len(),
                i <= n,
                s == self.children(index as int),
                index < self.len(),
                f == (if i < s.len() { Some(s[i as int]) } else { None::<Entity> }),
            ensures
                f.is_none() || i == n,
            decreases s.len() - i,
        {
            if i == n {
                break;
            }
            let c = f.unwrap();
            proof {
                self.lemma_links(index as int);
                self.lemma_links(Self::slot(c));
            }
            f = self.next_sibling[c.index_unchecked()];
            i = i + 1;
        }
        f
    }

    /// Returns the number of children of an entity, or `None` where the hierarchy
    /// has no slot for it.
    pub fn get_num_children(&self, entity: Entity) -> (r: Option<u32>)
        requires
            self.wf(),
        ensures
            r == (if self.holds(entity) {
                Some(self.children(Self::slot(entity)).len() as u32)
            } else {
                None
            }),
    {
        if entity.is_null() || entity.index_unchecked() >= self.parent.len() {
            return None;
        }
        let index = entity.index_unchecked();
        let ghost s = self.children(index as int);
        proof {
            self.lemma_links(index as int);
            self.lemma_children_bound(index as int);
        }
        let mut f = self.first_child[index];
        let mut count: u32 = 0;
        while f.is_some()
            invariant
                self.wf(),
                0 <= count <= s.len(),
                s.len() <= self.len() <= index_span(),
                s == self.children(index as int),
                index < self.len(),
                f == (if count < s.len() { Some(s[count as int]) } else { None::<Entity> }),
            decreases s.len() - count,
        {
            let c = f.unwrap();
            proof {
                self.lemma_links(index as int);
                self.lemma_links(Self::slot(c));
            }
            f = self.next_sibling[c.index_unchecked()];
            count = count + 1;
        }
        Some(count)
    }

    /// A slot has no more children than there are slots.
    proof fn lemma_children_bound(&self, p: int)
        requires
            self.wf(),
            0 <= p < self.len(),
        ensures
            self.children(p).len() <= self.len(),
    {
        let s = self.children(p);
        let slots = Set::new(|i: int| 0 <= i < self.len());
        let f = |j: int| s[j].index_spec() as int;
        let dom = Set::new(|j: int| 0 <= j < s.len());
        assert forall|j1: int, j2: int| dom.contains(j1) && dom.contains(j2) && f(j1) == f(j2) implies j1 == j2 by {
            if j1 != j2 {
                self.lemma_kids_distinct(p, j1, j2);
            }
        }
        assert forall|j: int| dom.contains(j) implies slots.contains(f(j)) by {
            assert(self.kid_ok(p, j));
        }
        vstd::set_lib::lemma_int_range(0, s.len() as int);
        vstd::set_lib::lemma_int_range(0, self.len() as int);
        assert(dom =~= vstd::set_lib::set_int_range(0, s.len() as int));
        assert(slots =~= vstd::set_lib::set_int_range(0, self.len() as int));
        vstd::set_lib::lemma_map_size(dom, dom.map(f), f);
        assert(dom.map(f).subset_of(slots));
        vstd::set_lib::lemma_len_subset(dom.map(f), slots);
    }
}


impl Hierarchy {
    /// The links of `self` are those of `o` with slot `x` taken out of the
    /// children of its parent `p`, where it stood at position `k`.
    closed spec fn unlinked_from(&self, o: &Hierarchy, x: int, p: int, k: int) -> bool {
        let n = o.parent@.len();
        let s = o.kids@[p];
        let b = if k == 0 { None::<Entity> } else { Some(s[k - 1]) };
        let a = if k + 1 == s.len() { None::<Entity> } else { Some(s[k + 1]) };
        &&& self.parent@ == o.parent@.update(x, None)
        &&& self.prev_sibling@ == (match a {
            Some(ae) => o.prev_sibling@.update(ae.index_spec() as int, b),
            None => o.prev_sibling@,
        }).update(x, None)
        &&& self.next_sibling@ == (match b {
            Some(be) => o.next_sibling@.update(be.index_spec() as int, a),
            None => o.next_sibling@,
        }).update(x, None)
        &&& self.first_child@ == (if k == 0 { o.first_child@.update(p, a) } else { o.first_child@ })
        &&& self.kids@ == o.kids@.update(p, s.remove(k))
        &&& self.pos@ == Seq::new(n, |i: int| if o.parent@[i] matches Some(q) && q.index_spec() == p && o.pos@[i] > k {
            o.pos@[i] - 1
        } else {
            o.pos@[i]
        })
        &&& self.rank@ == o.rank@
    }

    proof fn lemma_unlink_wf(&self, o: &Hierarchy, x: int, p: int, k: int)
        requires
            o.wf(),
            0 <= x < o.len(),
            o.parent@[x] matches Some(q) && q.index_spec() == p,
            k == o.pos@[x],
            self.unlinked_from(o, x, p, k),
        ensures
            self.wf(),
    {
        let n = o.parent@.len();
        let s = o.kids@[p];
        let s2 = s.remove(k);
        assert(o.parent_ok(x));
        assert(o.kid_ok(p, k));
        if k > 0 {
            assert(o.kid_ok(p, k - 1));
        }
        if k + 1 < s.len() {
            assert(o.kid_ok(p, k + 1));
        }
        assert forall|i: int| 0 <= i < n implies #[trigger] self.parent_ok(i) by {
            assert(o.parent_ok(i));
            if i != x {
                if let Some(q2) = o.parent@[i] {
                    let pp = q2.index_spec() as int;
                    if pp == p {
                        assert(o.kid_ok(p, o.pos@[i]));
                        assert(o.pos@[i] != k);
                    }
                } else {
                    if k > 0 {
                        assert(s[k - 1].index_spec() != i);
                    }
                    if k + 1 < s.len() {
                        assert(s[k + 1].index_spec() != i);
                    }
                }
            }
        }
        assert forall|pp: int, j: int| 0 <= pp < n && 0 <= j < self.kids@[pp].len() implies #[trigger] self.kid_ok(pp, j) by {
            if pp != p {
                assert(o.kid_ok(pp, j));
                let c = o.kids@[pp][j];
                if k > 0 {
                    assert(s[k - 1].index_spec() != c.index_spec());
                }
                if k + 1 < s.len() {
                    assert(s[k + 1].index_spec() != c.index_spec());
                }
            } else {
                let jj = if j < k { j } else { j + 1 };
                assert(s2[j] == s[jj]);
                assert(o.kid_ok(p, jj));
                if jj > 0 {
                    assert(o.kid_ok(p, jj - 1));
                }
                if jj + 1 < s.len() {
                    assert(o.kid_ok(p, jj + 1));
                }
                if k > 0 && jj != k - 1 {
                    o.lemma_kids_distinct(p, k - 1, jj);
                }
                if k + 1 < s.len() && jj != k + 1 {
                    o.lemma_kids_distinct(p, k + 1, jj);
                }
                o.lemma_kids_distinct(p, k, jj);
            }
        }
        assert forall|pp: int| 0 <= pp < n implies #[trigger] self.first_ok(pp) by {
            assert(o.first_ok(pp));
        }
    }

    /// Detaches slot `x` from its parent's children; its own children stay with it.
    fn unlink(&mut self, x: usize)
        requires
            old(self).wf(),
            x < old(self).len(),
        ensures
            final(self).wf(),
            final(self).len() == old(self).len(),
            final(self).ranks() == old(self).ranks(),
            final(self).changed_spec() == old(self).changed_spec(),
            final(self).parent_of(x as int) is None,
            forall|i: int| 0 <= i < old(self).len() && i != x ==> #[trigger] final(self).parent_of(i) == old(self).parent_of(i),
            final(self).parents() == old(self).parents().update(x as int, None),
            match old(self).parent_of(x as int) {
                None => final(self).same_links(old(self)),
                Some(q) => {
                    &&& final(self).children(Self::slot(q)) == old(self).children(Self::slot(q)).remove(old(self).position(x as int))
                    &&& forall|i: int| 0 <= i < old(self).len() && i != Self::slot(q) ==> #[trigger] final(self).children(i) == old(self).children(i)
                },
            },
    {
        let ghost o = *self;
        let q = match self.parent[x] {
            None => {
                proof {
                    assert(o.parent_ok(x as int));
                    assert(self.parent@ =~= o.parent@.update(x as int, None));
                }
                return;
            }
            Some(q) => q,
        };
        let p = q.index_unchecked();
        let ghost k = self.pos@[x as int];
        proof {
            assert(o.parent_ok(x as int));
            assert(o.kid_ok(p as int, k));
        }
        let prev = self.prev_sibling[x];
        let next = self.next_sibling[x];
        match prev {
            Some(b) => {
                proof {
                    assert(o.kid_ok(p as int, k - 1));
                }
                self.next_sibling.set(b.index_unchecked(), next);
            }
            None => {
                self.first_child.set(p, next);
            }
        }
        match next {
            Some(a) => {
                proof {
                    assert(o.kid_ok(p as int, k + 1));
                }
                self.prev_sibling.set(a.index_unchecked(), prev);
            }
            None => {}
        }
        self.parent.set(x, None);
        self.prev_sibling.set(x, None);
        self.next_sibling.set(x, None);
        let ghost n = o.parent@.len();
        let ghost s = o.kids@[p as int];
        self.kids = Ghost(o.kids@.update(p as int, s.remove(k)));
        self.pos = Ghost(Seq::new(n, |i: int| if o.parent@[i] matches Some(q2) && q2.index_spec() == p && o.pos@[i] > k {
            o.pos@[i] - 1
        } else {
            o.pos@[i]
        }));
        proof {
            assert(self.unlinked_from(&o, x as int, p as int, k));
            self.lemma_unlink_wf(&o, x as int, p as int, k);
        }
    }
}


/// A slot with a parent lies in the subtree of `a` iff it is `a` or its parent does.
pub proof fn lemma_descends_step(parents: Seq<Option<Entity>>, i: int, a: int)
    requires
        0 <= i < parents.len(),
    ensures
        descends(parents, i, a) <==> (i == a || (parents[i] matches Some(q) && descends(parents, q.index_spec() as int, a))),
{
    if descends(parents, i, a) && i != a {
        let k = choose|k: nat| ancestor(parents, i, k) == Some(a);
        assert(k != 0);
        if let Some(q) = parents[i] {
            assert(ancestor(parents, q.index_spec() as int, (k - 1) as nat) == Some(a));
        }
    }
    if i == a {
        assert(ancestor(parents, i, 0) == Some(a));
    }
    if let Some(q) = parents[i] {
        if descends(parents, q.index_spec() as int, a) {
            let k = choose|k: nat| ancestor(parents, q.index_spec() as int, k) == Some(a);
            assert(ancestor(parents, i, k + 1) == Some(a));
        }
    }
}

impl Hierarchy {
    /// Whether slot `i` lies in the subtree of slot `a`, found by walking up from `i`.
    fn in_subtree(&self, i: usize, a: usize) -> (r: bool)
        requires
            self.wf(),
            i < self.len(),
        ensures
            r == descends(self.parents(), i as int, a as int),
    {
        let mut cur = i;
        loop
            invariant
                self.wf(),
                cur < self.len(),
                descends(self.parents(), i as int, a as int) == descends(self.parents(), cur as int, a as int),
            decreases self.rank@[cur as int],
        {
            proof {
                lemma_descends_step(self.parents(), cur as int, a as int);
                assert(self.parent_ok(cur as int));
            }
            if cur == a {
                return true;
            }
            match self.parent[cur] {
                None => {
                    return false;
                }
                Some(q) => {
                    cur = q.index_unchecked();
                }
            }
        }
    }

    /// The links of `self` are those of `o` with the detached slot `x`, as entity
    /// `xe`, put among the children of slot `p` (entity `pe`) at position `k`.
    closed spec fn linked_from(&self, o: &Hierarchy, x: int, xe: Entity, p: int, pe: Entity, k: int) -> bool {
        let n = o.parent@.len();
        let s = o.kids@[p];
        let b = if k == 0 { None::<Entity> } else { Some(s[k - 1]) };
        let a = if k == s.len() { None::<Entity> } else { Some(s[k]) };
        &&& self.parent@ == o.parent@.update(x, Some(pe))
        &&& self.prev_sibling@ == (match a {
            Some(ae) => o.prev_sibling@.update(x, b).update(ae.index_spec() as int, Some(xe)),
            None => o.prev_sibling@.update(x, b),
        })
        &&& self.next_sibling@ == (match b {
            Some(be) => o.next_sibling@.update(x, a).update(be.index_spec() as int, Some(xe)),
            None => o.next_sibling@.update(x, a),
        })
        &&& self.first_child@ == (if k == 0 { o.first_child@.update(p, Some(xe)) } else { o.first_child@ })
        &&& self.kids@ == o.kids@.update(p, s.insert(k, xe))
        &&& self.pos@.len() == n
        &&& forall|i: int| 0 <= i < n ==> #[trigger] self.pos@[i] == (if i == x {
            k
        } else if o.parent@[i] matches Some(q) && q.index_spec() == p && o.pos@[i] >= k {
            o.pos@[i] + 1
        } else {
            o.pos@[i]
        })
        &&& self.rank@.len() == n
        &&& forall|i: int| 0 <= i < n ==> #[trigger] self.rank@[i] == (if descends(o.parent@, i, x) {
            o.rank@[i] + o.rank@[p] + 1
        } else {
            o.rank@[i]
        })
    }

    proof fn lemma_link_wf(&self, o: &Hierarchy, x: int, xe: Entity, p: int, pe: Entity, k: int)
        requires
            o.wf(),
            0 < x < o.len(),
            0 <= p < o.len(),
            xe.index_spec() == x,
            !xe.is_null_spec(),
            pe.index_spec() == p,
            !pe.is_null_spec(),
            o.parent@[x] is None,
            !descends(o.parent@, p, x),
            0 <= k <= o.kids@[p].len(),
            self.linked_from(o, x, xe, p, pe, k),
        ensures
            self.wf(),
    {
        let n = o.parent@.len();
        let s = o.kids@[p];
        let s2 = s.insert(k, xe);
        assert(o.parent_ok(x));
        if k > 0 {
            assert(o.kid_ok(p, k - 1));
        }
        if k < s.len() {
            assert(o.kid_ok(p, k));
        }
        assert(self.parent@[0] is None) by {
            assert(o.parent@[0] is None);
        }
        assert forall|i: int| 0 <= i < n implies #[trigger] self.parent_ok(i) by {
            assert(o.parent_ok(i));
            if i == x {
                lemma_descends_step(o.parent@, x, x);
            } else {
                if let Some(q2) = o.parent@[i] {
                    let pp = q2.index_spec() as int;
                    lemma_descends_step(o.parent@, i, x);
                    if pp == p {
                        assert(o.kid_ok(p, o.pos@[i]));
                    }
                } else {
                    if k > 0 {
                        assert(s[k - 1].index_spec() != i);
                    }
                    if k < s.len() {
                        assert(s[k].index_spec() != i);
                    }
                }
            }
        }
        assert forall|pp: int, j: int| 0 <= pp < n && 0 <= j < self.kids@[pp].len() implies #[trigger] self.kid_ok(pp, j) by {
            if pp != p {
                assert(o.kid_ok(pp, j));
                let c = o.kids@[pp][j];
                if k > 0 {
                    assert(s[k - 1].index_spec() != c.index_spec());
                }
                if k < s.len() {
                    assert(s[k].index_spec() != c.index_spec());
                }
            } else if j == k {
                assert(s2[k] == xe);
                if k < s.len() {
                    assert(s2[k + 1] == s[k]);
                }
                if k > 0 {
                    assert(s2[k - 1] == s[k - 1]);
                }
            } else {
                let jj = if j < k { j } else { j - 1 };
                assert(s2[j] == s[jj]);
                assert(o.kid_ok(p, jj));
                if jj > 0 {
                    assert(o.kid_ok(p, jj - 1));
                }
                if jj + 1 < s.len() {
                    assert(o.kid_ok(p, jj + 1));
                }
                if k > 0 && jj != k - 1 {
                    o.lemma_kids_distinct(p, k - 1, jj);
                }
                if k < s.len() && jj != k {
                    o.lemma_kids_distinct(p, k, jj);
                }
                assert(s[jj].index_spec() != x);
            }
        }
        assert forall|pp: int| 0 <= pp < n implies #[trigger] self.first_ok(pp) by {
            assert(o.first_ok(pp));
        }
    }

    /// Attaches the detached slot `x`, as entity `xe`, to slot `p` (entity `pe`),
    /// between the children `before` and `after`, which stand at positions `k - 1`
    /// and `k`.
    fn link_at(
        &mut self,
        xe: Entity,
        pe: Entity,
        before: Option<Entity>,
        after: Option<Entity>,
        Ghost(k): Ghost<int>,
    )
        requires
            old(self).wf(),
            old(self).holds(xe),
            old(self).holds(pe),
            Self::slot(xe) != 0,
            old(self).parent_of(Self::slot(xe)) is None,
            !descends(old(self).parents(), Self::slot(pe), Self::slot(xe)),
            0 <= k <= old(self).children(Self::slot(pe)).len(),
            before == (if k == 0 { None } else { Some(old(self).children(Self::slot(pe))[k - 1]) }),
            after == (if k == old(self).children(Self::slot(pe)).len() { None } else {
                Some(old(self).children(Self::slot(pe))[k])
            }),
        ensures
            final(self).wf(),
            final(self).len() == old(self).len(),
            final(self).changed_spec() == old(self).changed_spec(),
            final(self).children(Self::slot(pe)) == old(self).children(Self::slot(pe)).insert(k, xe),
            forall|i: int| 0 <= i < old(self).len() && i != Self::slot(pe) ==> #[trigger] final(self).children(i) == old(self).children(i),
            final(self).parents() == old(self).parents().update(Self::slot(xe), Some(pe)),
    {
        let ghost o = *self;
        let x = xe.index_unchecked();
        let p = pe.index_unchecked();
        proof {
            if k > 0 {
                assert(o.kid_ok(p as int, k - 1));
            }
            if k < o.kids@[p as int].len() {
                assert(o.kid_ok(p as int, k));
            }
        }
        self.parent.set(x, Some(pe));
        self.prev_sibling.set(x, before);
        self.next_sibling.set(x, after);
        match before {
            Some(b) => {
                self.next_sibling.set(b.index_unchecked(), Some(xe));
            }
            None => {
                self.first_child.set(p, Some(xe));
            }
        }
        match after {
            Some(a) => {
                self.prev_sibling.set(a.index_unchecked(), Some(xe));
            }
            None => {}
        }
        let ghost n = o.parent@.len();
        let ghost s = o.kids@[p as int];
        self.kids = Ghost(o.kids@.update(p as int, s.insert(k, xe)));
        self.pos = Ghost(Seq::new(n, |i: int| if i == x as int {
            k
        } else if o.parent@[i] matches Some(q) && q.index_spec() == p && o.pos@[i] >= k {
            o.pos@[i] + 1
        } else {
            o.pos@[i]
        }));
        self.rank = Ghost(Seq::new(n, |i: int| if descends(o.parent@, i, x as int) {
            o.rank@[i] + o.rank@[p as int] + 1
        } else {
            o.rank@[i]
        }));
        proof {
            assert(self.linked_from(&o, x as int, xe, p as int, pe, k));
            self.lemma_link_wf(&o, x as int, xe, p as int, pe, k);
        }
    }
}


impl Hierarchy {
    /// The children of slot `i` once slot `x` is taken out of its parent's children.
    pub open spec fn take_out(&self, x: int, i: int) -> Seq<Entity> {
        if 0 <= x < self.len() {
            match self.parent_of(x) {
                Some(q) => if Self::slot(q) == i {
                    self.children(i).remove(self.position(x))
                } else {
                    self.children(i)
                },
                None => self.children(i),
            }
        } else {
            self.children(i)
        }
    }

    /// Where slot `e` stands among its parent's children once its sibling `x` is
    /// taken out of them.
    pub open spec fn position_without(&self, x: int, e: int) -> int {
        if self.position(x) < self.position(e) {
            self.position(e) - 1
        } else {
            self.position(e)
        }
    }

    /// `self` is `before` with slot `x` taken out of its parent's children.
    pub open spec fn after_remove(&self, before: &Hierarchy, x: int) -> bool {
        &&& self.len() == before.len()
        &&& self.parents() == before.parents().update(x, None)
        &&& forall|i: int| 0 <= i < self.len() ==> #[trigger] self.children(i) == before.take_out(x, i)
    }

    /// `self` is `before` with `xe` moved, or added, to the end of the children of `pe`.
    pub open spec fn after_append(&self, before: &Hierarchy, xe: Entity, pe: Entity) -> bool {
        let x = Self::slot(xe);
        let p = Self::slot(pe);
        &&& self.len() == (if x < before.len() { before.len() } else { (x + 1) as nat })
        &&& forall|i: int| 0 <= i < self.len() ==> #[trigger] self.parent_of(i) == (if i == x {
            Some(pe)
        } else if i < before.len() {
            before.parent_of(i)
        } else {
            None
        })
        &&& forall|i: int| 0 <= i < self.len() ==> #[trigger] self.children(i) == (if i >= before.len() {
            Seq::<Entity>::empty()
        } else if i == p {
            before.take_out(x, p).push(xe)
        } else {
            before.take_out(x, i)
        })
    }

    /// `self` is `before` with slot `x` of parent `p` moved to position `k` among
    /// `p`'s children (the position counted once `x` is taken out), as `xe`.
    pub open spec fn after_move(&self, before: &Hierarchy, xe: Entity, p: int, k: int) -> bool {
        let x = Self::slot(xe);
        &&& self.len() == before.len()
        &&& self.parents() == before.parents()
        &&& forall|i: int| 0 <= i < self.len() ==> #[trigger] self.children(i) == (if i == p {
            before.take_out(x, p).insert(k, xe)
        } else {
            before.children(i)
        })
    }

    /// A slot reached from `i` by following parent links, other than `i`
    /// itself, has children.
    proof fn lemma_descends_has_child(&self, i: int, a: int, k: nat)
        requires
            self.wf(),
            0 <= i < self.len(),
            ancestor(self.parent@, i, k) == Some(a),
            i != a,
        ensures
            0 <= a < self.len(),
            self.children(a).len() > 0,
        decreases k,
    {
        assert(self.parent_ok(i));
        let q = self.parent@[i].unwrap();
        if q.index_spec() as int != a {
            self.lemma_descends_has_child(q.index_spec() as int, a, (k - 1) as nat);
        }
    }

    /// Following parent links only lowers the rank.
    proof fn lemma_descends_rank(&self, i: int, a: int, k: nat)
        requires
            self.wf(),
            0 <= i < self.len(),
            ancestor(self.parent@, i, k) == Some(a),
        ensures
            0 <= a < self.len(),
            self.rank@[a] <= self.rank@[i],
        decreases k,
    {
        if k > 0 {
            assert(self.parent_ok(i));
            let q = self.parent@[i].unwrap();
            self.lemma_descends_rank(q.index_spec() as int, a, (k - 1) as nat);
        }
    }

    /// Cutting the parent link of `x` only shortens the walks that reach `x`.
    proof fn lemma_ancestor_uncut(parents: Seq<Option<Entity>>, x: int, i: int, k: nat)
        requires
            0 <= x < parents.len(),
            ancestor(parents.update(x, None), i, k) == Some(x),
        ensures
            ancestor(parents, i, k) == Some(x),
        decreases k,
    {
        if k > 0 {
            let q = parents.update(x, None)[i].unwrap();
            Self::lemma_ancestor_uncut(parents, x, q.index_spec() as int, (k - 1) as nat);
        }
    }

    /// The entity that stands for the attached slot `x` in its parent's children.
    fn entry(&self, x: usize) -> (r: Entity)
        requires
            self.wf(),
            x < self.len(),
            self.parent_of(x as int) is Some,
        ensures
            r == self.children(Self::slot(self.parent_of(x as int).unwrap()))[self.position(x as int)],
    {
        proof {
            self.lemma_links(x as int);
        }
        let q = self.parent[x].unwrap();
        match self.prev_sibling[x] {
            Some(b) => {
                proof {
                    let p = q.index_spec() as int;
                    assert(self.kid_ok(p, self.pos@[x as int] - 1));
                }
                self.next_sibling[b.index_unchecked()].unwrap()
            }
            None => {
                proof {
                    self.lemma_links(q.index_spec() as int);
                }
                self.first_child[q.index_unchecked()].unwrap()
            }
        }
    }

    /// Adds empty slots up to `n`.
    fn grow(&mut self, n: usize)
        requires
            old(self).wf(),
            n <= index_span(),
        ensures
            final(self).wf(),
            final(self).changed_spec() == old(self).changed_spec(),
            final(self).len() == if n > old(self).len() { n as nat } else { old(self).len() },
            forall|i: int| 0 <= i < final(self).len() ==> #[trigger] final(self).parent_of(i) == (if i < old(self).len() {
                old(self).parent_of(i)
            } else {
                None
            }),
            forall|i: int| 0 <= i < final(self).len() ==> #[trigger] final(self).children(i) == (if i < old(self).len() {
                old(self).children(i)
            } else {
                Seq::<Entity>::empty()
            }),
            forall|i: int| 0 <= i < old(self).len() ==> #[trigger] final(self).position(i) == old(self).position(i),
            forall|i: int| 0 <= i < old(self).len() ==> #[trigger] final(self).ranks()[i] == old(self).ranks()[i],
    {
        while self.parent.len() < n
            invariant
                self.wf(),
                n <= index_span(),
                self.changed_spec() == old(self).changed_spec(),
                old(self).len() <= self.len(),
                self.len() <= if n > old(self).len() { n as nat } else { old(self).len() },
                forall|i: int| 0 <= i < self.len() ==> #[trigger] self.parent_of(i) == (if i < old(self).len() {
                    old(self).parent_of(i)
                } else {
                    None
                }),
                forall|i: int| 0 <= i < self.len() ==> #[trigger] self.children(i) == (if i < old(self).len() {
                    old(self).children(i)
                } else {
                    Seq::<Entity>::empty()
                }),
                forall|i: int| 0 <= i < old(self).len() ==> #[trigger] self.position(i) == old(self).position(i),
                forall|i: int| 0 <= i < old(self).len() ==> #[trigger] self.ranks()[i] == old(self).ranks()[i],
                old(self).ranks().len() == old(self).len(),
            decreases n - self.parent.len(),
        {
            let ghost o = *self;
            self.parent.push(None);
            self.first_child.push(None);
            self.next_sibling.push(None);
            self.prev_sibling.push(None);
            self.kids = Ghost(o.kids@.push(Seq::<Entity>::empty()));
            self.pos = Ghost(o.pos@.push(0));
            self.rank = Ghost(o.rank@.push(0));
            proof {
                let m = o.parent@.len() as int;
                assert forall|i: int| 0 <= i < self.len() implies #[trigger] self.parent_of(i) == (if i < old(self).len() {
                    old(self).parent_of(i)
                } else {
                    None
                }) by {
                    if i < m {
                        assert(o.parent_of(i) == (if i < old(self).len() { old(self).parent_of(i) } else { None }));
                    }
                }
                assert forall|i: int| 0 <= i < self.len() implies #[trigger] self.children(i) == (if i < old(self).len() {
                    old(self).children(i)
                } else {
                    Seq::<Entity>::empty()
                }) by {
                    if i < m {
                        assert(o.children(i) == (if i < old(self).len() { old(self).children(i) } else { Seq::<Entity>::empty() }));
                    }
                }
                assert forall|i: int| 0 <= i < old(self).len() implies #[trigger] self.position(i) == old(self).position(i) by {
                    assert(o.position(i) == old(self).position(i));
                }
                assert forall|i: int| 0 <= i < old(self).len() implies #[trigger] self.ranks()[i] == old(self).ranks()[i] by {
                    assert(o.ranks()[i] == old(self).ranks()[i]);
                }
                assert forall|i: int| 0 <= i < self.len() implies #[trigger] self.parent_ok(i) by {
                    if i < m {
                        assert(o.parent_ok(i));
                    }
                }
                assert forall|p: int, j: int| 0 <= p < self.len() && 0 <= j < self.kids@[p].len() implies #[trigger] self.kid_ok(p, j) by {
                    assert(o.kid_ok(p, j));
                }
                assert forall|p: int| 0 <= p < self.len() implies #[trigger] self.first_ok(p) by {
                    if p < m {
                        assert(o.first_ok(p));
                    }
                }
            }
        }
    }

    /// Moves the slot of `entity`, with its subtree, to the end of the children of
    /// `parent`; the slot must not be the root, nor hold `parent` in its subtree.
    fn attach_last(&mut self, entity: Entity, parent: Entity)
        requires
            old(self).wf(),
            old(self).holds(entity),
            old(self).holds(parent),
            Self::slot(entity) != 0,
            !descends(old(self).parents(), Self::slot(parent), Self::slot(entity)),
        ensures
            final(self).wf(),
            final(self).changed_spec(),
            final(self).after_append(old(self), entity, parent),
    {
        let x = entity.index_unchecked();
        let p = parent.index_unchecked();
        let ghost o = *self;
        self.unlink(x);
        proof {
            if descends(self.parents(), p as int, x as int) {
                let k = choose|k: nat| ancestor(self.parents(), p as int, k) == Some(x as int);
                Self::lemma_ancestor_uncut(o.parents(), x as int, p as int, k);
            }
        }
        let ghost u = *self;
        proof {
            assert forall|i: int| 0 <= i < u.len() implies #[trigger] u.children(i) == o.take_out(x as int, i) by {
                if let Some(q) = o.parent_of(x as int) {
                    if i != Self::slot(q) {
                        assert(u.children(i) == o.children(i));
                    }
                } else {
                    assert(u.children(i) == o.children(i));
                }
            }
        }
        let last = self.get_last_child(parent);
        let ghost kk = self.children(p as int).len() as int;
        self.link_at(entity, parent, last, None, Ghost(kk));
        let ghost l = *self;
        self.changed = true;
        proof {
            self.lemma_wf_ignores_flag(&l);
            assert forall|i: int| 0 <= i < self.len() implies #[trigger] self.children(i) == (if i == p as int {
                o.take_out(x as int, p as int).push(entity)
            } else {
                o.take_out(x as int, i)
            }) by {
                assert(self.children(i) == l.children(i));
                assert(u.children(i) == o.take_out(x as int, i));
                if i == p as int {
                    assert(l.children(i) =~= u.children(i).push(entity));
                } else {
                    assert(l.children(i) == u.children(i));
                }
            }
            assert forall|i: int| 0 <= i < self.len() implies #[trigger] self.parent_of(i) == (if i == x as int {
                Some(parent)
            } else if i < o.len() {
                o.parent_of(i)
            } else {
                None
            }) by {
                assert(self.parent_of(i) == l.parent_of(i));
                assert(l.parents()[i] == self.parents()[i]);
            }
        }
    }

    /// Why `add(entity, parent)` is refused, if it is: a null entity, a parent
    /// without a slot, the root as the entity, or a parent inside the entity's
    /// own subtree.
    pub open spec fn add_check(&self, entity: Entity, parent: Entity) -> Option<HierarchyError> {
        if entity.is_null_spec() || parent.is_null_spec() {
            Some(HierarchyError::NullEntity)
        } else if !self.holds(parent) || Self::slot(entity) == 0 || (self.holds(entity) && descends(
            self.parents(),
            Self::slot(parent),
            Self::slot(entity),
        )) {
            Some(HierarchyError::InvalidParent)
        } else {
            None
        }
    }

    /// Why `set_parent(entity, parent)` is refused, if it is.
    pub open spec fn set_parent_check(&self, entity: Entity, parent: Entity) -> Option<HierarchyError> {
        if entity.is_null_spec() || parent.is_null_spec() {
            Some(HierarchyError::NullEntity)
        } else if !self.holds(entity) {
            Some(HierarchyError::NoEntity)
        } else if !self.holds(parent) || Self::slot(entity) == 0 || descends(
            self.parents(),
            Self::slot(parent),
            Self::slot(entity),
        ) {
            Some(HierarchyError::InvalidParent)
        } else {
            None
        }
    }

    /// Removes an entity from its parent's children. Its own children stay with it,
    /// to be removed or added again with it by the caller.
    pub fn remove(&mut self, entity: Entity) -> (r: Result<(), HierarchyError>)
        requires
            old(self).wf(),
        ensures
            final(self).wf(),
            entity.is_null_spec() ==> r == Err::<(), HierarchyError>(HierarchyError::NullEntity),
            !entity.is_null_spec() && !old(self).holds(entity) ==> r == Err::<(), HierarchyError>(HierarchyError::NoEntity),
            r is Err ==> *final(self) == *old(self),
            old(self).holds(entity) ==> {
                &&& r is Ok
                &&& final(self).changed_spec()
                &&& final(self).after_remove(old(self), Self::slot(entity))
            },
    {
        if entity.is_null() {
            return Err(HierarchyError::NullEntity);
        }
        let x = entity.index_unchecked();
        if x >= self.parent.len() {
            return Err(HierarchyError::NoEntity);
        }
        let ghost o = *self;
        self.unlink(x);
        let ghost u = *self;
        self.changed = true;
        proof {
            self.lemma_wf_ignores_flag(&u);
            assert forall|i: int| 0 <= i < self.len() implies #[trigger] self.children(i) == o.take_out(x as int, i) by {
                assert(self.children(i) == u.children(i));
                if let Some(q) = o.parent_of(x as int) {
                    if i != Self::slot(q) {
                        assert(u.children(i) == o.children(i));
                    }
                } else {
                    assert(u.children(i) == o.children(i));
                }
            }
        }
        Ok(())
    }

    /// Adds an entity as the last child of `parent`, making room for its index.
    /// An entity that is already in the hierarchy moves, with its subtree.
    pub fn add(&mut self, entity: Entity, parent: Entity) -> (r: Result<(), HierarchyError>)
        requires
            old(self).wf(),
        ensures
            final(self).wf(),
            match old(self).add_check(entity, parent) {
                Some(err) => r == Err::<(), HierarchyError>(err) && *final(self) == *old(self),
                None => r is Ok && final(self).changed_spec() && final(self).after_append(old(self), entity, parent),
            },
    {
        if entity.is_null() || parent.is_null() {
            return Err(HierarchyError::NullEntity);
        }
        let p = parent.index_unchecked();
        if p >= self.parent.len() {
            return Err(HierarchyError::InvalidParent);
        }
        let x = entity.index_unchecked();
        if x == 0 {
            return Err(HierarchyError::InvalidParent);
        }
        if x < self.parent.len() {
            if self.in_subtree(p, x) {
                return Err(HierarchyError::InvalidParent);
            }
            self.attach_last(entity, parent);
        } else {
            let ghost o = *self;
            self.grow(x + 1);
            let ghost g = *self;
            proof {
                if descends(self.parents(), p as int, x as int) {
                    let k = choose|k: nat| ancestor(self.parents(), p as int, k) == Some(x as int);
                    self.lemma_descends_has_child(p as int, x as int, k);
                }
            }
            self.attach_last(entity, parent);
            proof {
                assert forall|i: int| 0 <= i < self.len() implies #[trigger] self.parent_of(i) == (if i == x as int {
                    Some(parent)
                } else if i < o.len() {
                    o.parent_of(i)
                } else {
                    None
                }) by {
                    assert(g.parent_of(i) == (if i < o.len() { o.parent_of(i) } else { None }));
                }
                assert forall|i: int| 0 <= i < self.len() implies #[trigger] self.children(i) == (if i >= o.len() {
                    Seq::<Entity>::empty()
                } else if i == p as int {
                    o.take_out(x as int, p as int).push(entity)
                } else {
                    o.take_out(x as int, i)
                }) by {
                    assert(g.children(i) == (if i < o.len() { o.children(i) } else { Seq::<Entity>::empty() }));
                    if i >= o.len() {
                        assert(i != p as int);
                        assert(g.parent_of(x as int) is None);
                    }
                }
            }
        }
        Ok(())
    }

    /// Moves an entity, with its subtree, to the end of the children of `parent`.
    pub fn set_parent(&mut self, entity: Entity, parent: Entity) -> (r: Result<(), HierarchyError>)
        requires
            old(self).wf(),
        ensures
            final(self).wf(),
            match old(self).set_parent_check(entity, parent) {
                Some(err) => r == Err::<(), HierarchyError>(err) && *final(self) == *old(self),
                None => r is Ok && final(self).changed_spec() && final(self).after_append(old(self), entity, parent),
            },
    {
        if entity.is_null() || parent.is_null() {
            return Err(HierarchyError::NullEntity);
        }
        let x = entity.index_unchecked();
        if x >= self.parent.len() {
            return Err(HierarchyError::NoEntity);
        }
        let p = parent.index_unchecked();
        if p >= self.parent.len() || x == 0 {
            return Err(HierarchyError::InvalidParent);
        }
        if self.in_subtree(p, x) {
            return Err(HierarchyError::InvalidParent);
        }
        self.attach_last(entity, parent);
        Ok(())
    }
}


impl Hierarchy {
    /// Why `set_first_child(entity)` is refused, if it is.
    pub open spec fn first_child_check(&self, entity: Entity) -> Option<HierarchyError> {
        let x = Self::slot(entity);
        if entity.is_null_spec() {
            Some(HierarchyError::NullEntity)
        } else if !self.holds(entity) {
            Some(HierarchyError::InvalidSibling)
        } else if self.parent_of(x) is None {
            Some(HierarchyError::InvalidParent)
        } else if self.position(x) == 0 {
            Some(HierarchyError::AlreadyFirstChild)
        } else {
            None
        }
    }

    /// Why moving `sibling` next to `entity` is refused, if it is; `neighbour` is
    /// the sibling already on that side of `entity`.
    pub open spec fn sibling_check(&self, entity: Entity, sibling: Entity, neighbour: Option<Entity>) -> Option<HierarchyError> {
        let x = Self::slot(entity);
        let y = Self::slot(sibling);
        if entity.is_null_spec() || sibling.is_null_spec() {
            Some(HierarchyError::NullEntity)
        } else if !self.holds(entity) {
            Some(HierarchyError::NoEntity)
        } else if !self.holds(sibling) {
            Some(HierarchyError::InvalidSibling)
        } else if self.parent_of(x) is None {
            Some(HierarchyError::InvalidParent)
        } else if neighbour matches Some(nb) && Self::slot(nb) == y {
            Some(HierarchyError::AlreadySibling)
        } else if y == x || !(self.parent_of(y) matches Some(q) && Self::slot(q) == Self::slot(self.parent_of(x).unwrap())) {
            Some(HierarchyError::InvalidSibling)
        } else {
            None
        }
    }

    /// An attached slot does not hold its parent in its subtree, also once detached.
    proof fn lemma_parent_not_below(&self, u: &Hierarchy, x: int)
        requires
            self.wf(),
            0 <= x < self.len(),
            self.parent_of(x) is Some,
            u.parents() == self.parents().update(x, None),
        ensures
            !descends(u.parents(), Self::slot(self.parent_of(x).unwrap()), x),
    {
        let p = Self::slot(self.parent_of(x).unwrap());
        assert(self.parent_ok(x));
        if descends(u.parents(), p, x) {
            let k = choose|k: nat| ancestor(u.parents(), p, k) == Some(x);
            Self::lemma_ancestor_uncut(self.parents(), x, p, k);
            self.lemma_descends_rank(p, x, k);
        }
    }

    /// Slot `e`'s place once its sibling `y` has been unlinked.
    proof fn lemma_position_after_unlink(&self, u: &Hierarchy, y: int, e: int)
        requires
            self.wf(),
            u.wf(),
            0 <= y < self.len(),
            0 <= e < self.len(),
            e != y,
            self.parent_of(y) is Some,
            self.parent_of(e) is Some,
            Self::slot(self.parent_of(y).unwrap()) == Self::slot(self.parent_of(e).unwrap()),
            u.len() == self.len(),
            u.parent_of(e) == self.parent_of(e),
            u.children(Self::slot(self.parent_of(y).unwrap())) == self.children(Self::slot(self.parent_of(y).unwrap())).remove(self.position(y)),
        ensures
            u.position(e) == self.position_without(y, e),
            0 <= u.position(e) < u.children(Self::slot(self.parent_of(y).unwrap())).len(),
    {
        let p = Self::slot(self.parent_of(y).unwrap());
        self.lemma_links(e);
        self.lemma_links(y);
        if self.position(e) == self.position(y) {
            self.lemma_links(p);
        }
        let j = self.position_without(y, e);
        let s2 = u.children(p);
        assert(s2[j] == self.children(p)[self.position(e)]);
        u.lemma_links(p);
        assert(u.position(Self::slot(s2[j])) == j);
    }

    /// Makes the entity the first child of its parent.
    pub fn set_first_child(&mut self, entity: Entity) -> (r: Result<(), HierarchyError>)
        requires
            old(self).wf(),
        ensures
            final(self).wf(),
            match old(self).first_child_check(entity) {
                Some(err) => r == Err::<(), HierarchyError>(err) && *final(self) == *old(self),
                None => {
                    &&& r is Ok
                    &&& final(self).changed_spec()
                    &&& final(self).after_move(
                        old(self),
                        entity,
                        Self::slot(old(self).parent_of(Self::slot(entity)).unwrap()),
                        0,
                    )
                },
            },
    {
        if entity.is_null() {
            return Err(HierarchyError::NullEntity);
        }
        let x = entity.index_unchecked();
        if x >= self.parent.len() {
            return Err(HierarchyError::InvalidSibling);
        }
        let pe = match self.parent[x] {
            Some(pe) => pe,
            None => {
                return Err(HierarchyError::InvalidParent);
            }
        };
        let p = pe.index_unchecked();
        proof {
            self.lemma_links(x as int);
            self.lemma_links(p as int);
        }
        if let Some(f) = self.first_child[p] {
            if f.index_unchecked() == x {
                proof {
                    if self.position(x as int) != 0 {
                        self.lemma_kids_distinct(p as int, 0, self.position(x as int));
                    }
                }
                return Err(HierarchyError::AlreadyFirstChild);
            }
        }
        let ghost o = *self;
        self.unlink(x);
        let ghost u = *self;
        proof {
            o.lemma_parent_not_below(&u, x as int);
            u.lemma_links(p as int);
            assert(x != 0) by {
                assert(o.parents()[0] is None);
            }
        }
        let first = self.first_child[p];
        self.link_at(entity, pe, None, first, Ghost(0));
        let ghost l = *self;
        self.changed = true;
        proof {
            self.lemma_wf_ignores_flag(&l);
            assert(self.parents() =~= o.parents());
            assert forall|i: int| 0 <= i < self.len() implies #[trigger] self.children(i) == (if i == p as int {
                o.take_out(x as int, p as int).insert(0, entity)
            } else {
                o.children(i)
            }) by {
                assert(self.children(i) == l.children(i));
                if i != p as int {
                    assert(u.children(i) == o.children(i));
                }
            }
        }
        Ok(())
    }

    /// Moves `sibling` to stand right after `entity` among their parent's children.
    pub fn set_next_sibling(&mut self, entity: Entity, sibling: Entity) -> (r: Result<(), HierarchyError>)
        requires
            old(self).wf(),
        ensures
            final(self).wf(),
            match old(self).sibling_check(entity, sibling, old(self).next_of(Self::slot(entity))) {
                Some(err) => r == Err::<(), HierarchyError>(err) && *final(self) == *old(self),
                None => {
                    &&& r is Ok
                    &&& final(self).changed_spec()
                    &&& final(self).after_move(
                        old(self),
                        sibling,
                        Self::slot(old(self).parent_of(Self::slot(entity)).unwrap()),
                        old(self).position_without(Self::slot(sibling), Self::slot(entity)) + 1,
                    )
                },
            },
    {
        if entity.is_null() || sibling.is_null() {
            return Err(HierarchyError::NullEntity);
        }
        let x = entity.index_unchecked();
        if x >= self.parent.len() {
            return Err(HierarchyError::NoEntity);
        }
        let y = sibling.index_unchecked();
        if y >= self.parent.len() {
            return Err(HierarchyError::InvalidSibling);
        }
        let pe = match self.parent[x] {
            Some(pe) => pe,
            None => {
                return Err(HierarchyError::InvalidParent);
            }
        };
        proof {
            self.lemma_links(x as int);
        }
        if let Some(nb) = self.next_sibling[x] {
            if nb.index_unchecked() == y {
                return Err(HierarchyError::AlreadySibling);
            }
        }
        let p = pe.index_unchecked();
        if y == x {
            return Err(HierarchyError::InvalidSibling);
        }
        let qe = match self.parent[y] {
            Some(q) => {
                if q.index_unchecked() != p {
                    return Err(HierarchyError::InvalidSibling);
                }
                q
            }
            None => {
                return Err(HierarchyError::InvalidSibling);
            }
        };
        let ghost o = *self;
        proof {
            o.lemma_links(y as int);
        }
        self.unlink(y);
        let ghost u = *self;
        proof {
            o.lemma_parent_not_below(&u, y as int);
            o.lemma_position_after_unlink(&u, y as int, x as int);
            u.lemma_links(x as int);
            u.lemma_links(p as int);
            assert(y != 0) by {
                assert(o.parents()[0] is None);
            }
        }
        let ev = self.entry(x);
        let after = self.next_sibling[x];
        let ghost k = o.position_without(y as int, x as int) + 1;
        self.link_at(sibling, qe, Some(ev), after, Ghost(k));
        let ghost l = *self;
        self.changed = true;
        proof {
            self.lemma_wf_ignores_flag(&l);
            assert(self.parents() =~= o.parents());
            assert forall|i: int| 0 <= i < self.len() implies #[trigger] self.children(i) == (if i == p as int {
                o.take_out(y as int, p as int).insert(k, sibling)
            } else {
                o.children(i)
            }) by {
                assert(self.children(i) == l.children(i));
                if i != p as int {
                    assert(u.children(i) == o.children(i));
                }
            }
        }
        Ok(())
    }

    /// Moves `sibling` to stand right before `entity` among their parent's children.
    pub fn set_prev_sibling(&mut self, entity: Entity, sibling: Entity) -> (r: Result<(), HierarchyError>)
        requires
            old(self).wf(),
        ensures
            final(self).wf(),
            match old(self).sibling_check(entity, sibling, old(self).prev_of(Self::slot(entity))) {
                Some(err) => r == Err::<(), HierarchyError>(err) && *final(self) == *old(self),
                None => {
                    &&& r is Ok
                    &&& final(self).changed_spec()
                    &&& final(self).after_move(
                        old(self),
                        sibling,
                        Self::slot(old(self).parent_of(Self::slot(entity)).unwrap()),
                        old(self).position_without(Self::slot(sibling), Self::slot(entity)),
                    )
                },
            },
    {
        if entity.is_null() || sibling.is_null() {
            return Err(HierarchyError::NullEntity);
        }
        let x = entity.index_unchecked();
        if x >= self.parent.len() {
            return Err(HierarchyError::NoEntity);
        }
        let y = sibling.index_unchecked();
        if y >= self.parent.len() {
            return Err(HierarchyError::InvalidSibling);
        }
        let pe = match self.parent[x] {
            Some(pe) => pe,
            None => {
                return Err(HierarchyError::InvalidParent);
            }
        };
        proof {
            self.lemma_links(x as int);
        }
        if let Some(nb) = self.prev_sibling[x] {
            if nb.index_unchecked() == y {
                return Err(HierarchyError::AlreadySibling);
            }
        }
        let p = pe.index_unchecked();
        if y == x {
            return Err(HierarchyError::InvalidSibling);
        }
        let qe = match self.parent[y] {
            Some(q) => {
                if q.index_unchecked() != p {
                    return Err(HierarchyError::InvalidSibling);
                }
                q
            }
            None => {
                return Err(HierarchyError::InvalidSibling);
            }
        };
        let ghost o = *self;
        proof {
            o.lemma_links(y as int);
        }
        self.unlink(y);
        let ghost u = *self;
        proof {
            o.lemma_parent_not_below(&u, y as int);
            o.lemma_position_after_unlink(&u, y as int, x as int);
            u.lemma_links(x as int);
            u.lemma_links(p as int);
            assert(y != 0) by {
                assert(o.parents()[0] is None);
            }
        }
        let ev = self.entry(x);
        let before = self.prev_sibling[x];
        let ghost k = o.position_without(y as int, x as int);
        self.link_at(sibling, qe, before, Some(ev), Ghost(k));
        let ghost l = *self;
        self.changed = true;
        proof {
            self.lemma_wf_ignores_flag(&l);
            assert(self.parents() =~= o.parents());
            assert forall|i: int| 0 <= i < self.len() implies #[trigger] self.children(i) == (if i == p as int {
                o.take_out(y as int, p as int).insert(k, sibling)
            } else {
                o.children(i)
            }) by {
                assert(self.children(i) == l.children(i));
                if i != p as int {
                    assert(u.children(i) == o.children(i));
                }
            }
        }
        Ok(())
    }
}


impl Hierarchy {
    /// Returns true if the entity is the first child of its parent.
    pub fn is_first_child(&self, entity: Entity) -> (r: bool)
        requires
            self.wf(),
        ensures
            r == (self.holds(entity) && self.parent_of(Self::slot(entity)) is Some && self.position(Self::slot(entity)) == 0),
    {
        if let Some(parent) = self.get_parent(entity) {
            let x = entity.index_unchecked();
            proof {
                self.lemma_links(x as int);
                self.lemma_links(Self::slot(parent));
            }
            if let Some(first_child) = self.get_first_child(parent) {
                proof {
                    if self.position(x as int) != 0 {
                        self.lemma_kids_distinct(Self::slot(parent), 0, self.position(x as int));
                    }
                }
                return first_child.index_unchecked() == x;
            }
        }
        false
    }

    /// Both entities have a parent, and the same one.
    pub open spec fn same_parent(&self, e1: Entity, e2: Entity) -> bool {
        &&& self.holds(e1)
        &&& self.holds(e2)
        &&& self.parent_of(Self::slot(e1)) is Some
        &&& self.parent_of(Self::slot(e2)) is Some
        &&& Self::slot(self.parent_of(Self::slot(e1)).unwrap()) == Self::slot(self.parent_of(Self::slot(e2)).unwrap())
    }

    /// Returns true if both entities have a parent, and the same one.
    pub fn is_sibling(&self, entity1: Entity, entity2: Entity) -> (r: bool)
        requires
            self.wf(),
        ensures
            r == self.same_parent(entity1, entity2),
    {
        if let Some(parent1) = self.get_parent(entity1) {
            if let Some(parent2) = self.get_parent(entity2) {
                return parent1.index_unchecked() == parent2.index_unchecked();
            }
        }
        false
    }

    /// Returns true if the entity has children.
    pub fn has_children(&self, entity: Entity) -> (r: bool)
        requires
            self.wf(),
        ensures
            r == (self.holds(entity) && self.children(Self::slot(entity)).len() > 0),
    {
        if entity.is_null() || entity.index_unchecked() >= self.parent.len() {
            return false;
        }
        proof {
            self.lemma_links(Self::slot(entity));
        }
        self.first_child[entity.index_unchecked()].is_some()
    }

    /// Preorder goes on, once the subtree of slot `i` is done, at the next sibling
    /// of `i` or else of its nearest ancestor that has one.
    pub closed spec fn after_subtree(&self, i: int) -> Option<Entity>
        decreases self.ranks()[i],
        when self.wf() && 0 <= i < self.len() && self.parent_ok(i)
    {
        match self.next_of(i) {
            Some(s) => Some(s),
            None => match self.parent_of(i) {
                Some(q) => self.after_subtree(Self::slot(q)),
                None => None,
            },
        }
    }

    /// Inside the subtree of `start`, preorder goes on, once the subtree of slot
    /// `i` is done, at the next sibling of `i` or of its nearest ancestor below
    /// `start` that has one.
    pub closed spec fn after_subtree_within(&self, i: int, start: int) -> Option<Entity>
        decreases self.ranks()[i],
        when self.wf() && 0 <= i < self.len() && self.parent_ok(i)
    {
        match self.next_of(i) {
            Some(s) => Some(s),
            None => match self.parent_of(i) {
                Some(q) => if Self::slot(q) == start {
                    None
                } else {
                    self.after_subtree_within(Self::slot(q), start)
                },
                None => None,
            },
        }
    }

    /// The entity that preorder visits after slot `i`.
    pub open spec fn preorder_next(&self, i: int) -> Option<Entity> {
        match self.first_of(i) {
            Some(c) => Some(c),
            None => self.after_subtree(i),
        }
    }

    /// Walks up from slot `i` to the first slot with a next sibling.
    fn climb(&self, i: usize) -> (r: Option<Entity>)
        requires
            self.wf(),
            i < self.len(),
        ensures
            r == self.after_subtree(i as int),
    {
        let mut temp = i;
        loop
            invariant
                self.wf(),
                temp < self.len(),
                self.after_subtree(i as int) == self.after_subtree(temp as int),
            decreases self.rank@[temp as int],
        {
            proof {
                assert(self.parent_ok(temp as int));
                self.lemma_links(temp as int);
            }
            if let Some(sibling) = self.next_sibling[temp] {
                return Some(sibling);
            }
            match self.parent[temp] {
                Some(q) => {
                    proof {
                        assert(self.parent_ok(Self::slot(q)));
                    }
                    temp = q.index_unchecked();
                }
                None => {
                    return None;
                }
            }
        }
    }

    /// Walks up from slot `i`, below `start`, to the first slot with a next sibling.
    fn climb_within(&self, i: usize, start: usize) -> (r: Option<Entity>)
        requires
            self.wf(),
            i < self.len(),
        ensures
            r == self.after_subtree_within(i as int, start as int),
    {
        let mut temp = i;
        loop
            invariant
                self.wf(),
                temp < self.len(),
                self.after_subtree_within(i as int, start as int) == self.after_subtree_within(temp as int, start as int),
            decreases self.rank@[temp as int],
        {
            proof {
                assert(self.parent_ok(temp as int));
                self.lemma_links(temp as int);
            }
            if let Some(sibling) = self.next_sibling[temp] {
                return Some(sibling);
            }
            match self.parent[temp] {
                Some(q) => {
                    if q.index_unchecked() == start {
                        return None;
                    }
                    proof {
                        assert(self.parent_ok(Self::slot(q)));
                    }
                    temp = q.index_unchecked();
                }
                None => {
                    return None;
                }
            }
        }
    }

    /// A preorder walk of the whole hierarchy, from the root.
    pub fn iter(&self) -> (r: HierarchyIterator<'_>)
        requires
            self.wf(),
        ensures
            r.tree() == *self,
            r.current() == Some(Entity(0)),
    {
        HierarchyIterator { hierarchy: self, current_node: Some(Entity::root()) }
    }
}

/// Walks the hierarchy depth first, each entity before its children, going on
/// past the subtree it started in.
pub struct HierarchyIterator<'a> {
    hierarchy: &'a Hierarchy,
    current_node: Option<Entity>,
}

impl<'a> HierarchyIterator<'a> {
    pub closed spec fn tree(&self) -> Hierarchy {
        *self.hierarchy
    }

    /// The entity that the next call of `next` returns.
    pub closed spec fn current(&self) -> Option<Entity> {
        self.current_node
    }

    /// Returns the current entity and moves on to the entity after it in preorder.
    pub fn next(&mut self) -> (r: Option<Entity>)
        requires
            old(self).tree().wf(),
        ensures
            r == old(self).current(),
            final(self).tree() == old(self).tree(),
            final(self).current() == (match old(self).current() {
                Some(e) => if old(self).tree().holds(e) {
                    old(self).tree().preorder_next(Hierarchy::slot(e))
                } else {
                    None
                },
                None => None,
            }),
    {
        let r = self.current_node;
        if let Some(current) = self.current_node {
            if current.is_null() || current.index_unchecked() >= self.hierarchy.parent.len() {
                self.current_node = None;
                return r;
            }
            let i = current.index_unchecked();
            proof {
                self.hierarchy.lemma_links(i as int);
            }
            match self.hierarchy.first_child[i] {
                Some(child) => {
                    self.current_node = Some(child);
                }
                None => {
                    self.current_node = self.hierarchy.climb(i);
                }
            }
        }
        r
    }

    /// Skips the rest of the current entity's subtree: moves on to the next
    /// sibling of the entity or of its nearest ancestor that has one. Returns the
    /// entity skipped, or `None` where no such sibling exists.
    pub fn next_branch(&mut self) -> (r: Option<Entity>)
        requires
            old(self).tree().wf(),
        ensures
            final(self).tree() == old(self).tree(),
            final(self).current() == (match old(self).current() {
                Some(e) => if old(self).tree().holds(e) {
                    old(self).tree().after_subtree(Hierarchy::slot(e))
                } else {
                    None
                },
                None => None,
            }),
            r == (if final(self).current() is Some { old(self).current() } else { None }),
    {
        let r = self.current_node;
        if let Some(current) = self.current_node {
            if current.is_null() || current.index_unchecked() >= self.hierarchy.parent.len() {
                self.current_node = None;
                return None;
            }
            self.current_node = self.hierarchy.climb(current.index_unchecked());
            if self.current_node.is_some() {
                return r;
            }
        }
        None
    }
}

/// Walks one entity's subtree depth first, each entity before its children, and
/// stops when the walk would leave the subtree.
pub struct BranchIterator<'a> {
    hierarchy: &'a Hierarchy,
    start_node: Entity,
    current_node: Option<Entity>,
}

impl<'a> BranchIterator<'a> {
    pub closed spec fn tree(&self) -> Hierarchy {
        *self.hierarchy
    }

    /// The entity whose subtree is walked.
    pub closed spec fn start(&self) -> Entity {
        self.start_node
    }

    /// The entity that the next call of `next` returns.
    pub closed spec fn current(&self) -> Option<Entity> {
        self.current_node
    }

    /// Returns the current entity and moves on to the entity after it in the
    /// preorder of the subtree.
    pub fn next(&mut self) -> (r: Option<Entity>)
        requires
            old(self).tree().wf(),
        ensures
            r == old(self).current(),
            final(self).tree() == old(self).tree(),
            final(self).start() == old(self).start(),
            final(self).current() == (match old(self).current() {
                Some(e) => if !old(self).tree().holds(e) {
                    None
                } else if old(self).tree().first_of(Hierarchy::slot(e)) is Some {
                    old(self).tree().first_of(Hierarchy::slot(e))
                } else if e == old(self).start() {
                    None
                } else {
                    old(self).tree().after_subtree_within(Hierarchy::slot(e), Hierarchy::slot(old(self).start()))
                },
                None => None,
            }),
    {
        let r = self.current_node;
        if let Some(current) = self.current_node {
            if current.is_null() || current.index_unchecked() >= self.hierarchy.parent.len() {
                self.current_node = None;
                return r;
            }
            let i = current.index_unchecked();
            proof {
                self.hierarchy.lemma_links(i as int);
            }
            match self.hierarchy.first_child[i] {
                Some(child) => {
                    self.current_node = Some(child);
                }
                None => {
                    if current != self.start_node {
                        self.current_node = self.hierarchy.climb_within(i, self.start_node.index_unchecked());
                    } else {
                        self.current_node = None;
                    }
                }
            }
        }
        r
    }
}

/// Walks from an entity up through its ancestors.
pub struct ParentIterator<'a> {
    hierarchy: &'a Hierarchy,
    current: Option<Entity>,
}

impl<'a> ParentIterator<'a> {
    pub closed spec fn tree(&self) -> Hierarchy {
        *self.hierarchy
    }

    /// The entity that the next call of `next` returns.
    pub closed spec fn current(&self) -> Option<Entity> {
        self.current
    }

    /// Returns the current entity and moves on to its parent.
    pub fn next(&mut self) -> (r: Option<Entity>)
        requires
            old(self).tree().wf(),
        ensures
            r == old(self).current(),
            final(self).tree() == old(self).tree(),
            final(self).current() == (match old(self).current() {
                Some(e) => if old(self).tree().holds(e) {
                    old(self).tree().parent_of(Hierarchy::slot(e))
                } else {
                    None
                },
                None => None,
            }),
    {
        if let Some(entity) = self.current {
            self.current = self.hierarchy.get_parent(entity);
            return Some(entity);
        }
        None
    }
}

/// Walks the children of an entity, from the first forwards and from the last
/// backwards.
pub struct ChildIterator<'a> {
    hierarchy: &'a Hierarchy,
    current_forward: Option<Entity>,
    current_backward: Option<Entity>,
    kids: Ghost<Seq<Entity>>,
    front: Ghost<int>,
    back: Ghost<int>,
}

impl<'a> ChildIterator<'a> {
    pub closed spec fn tree(&self) -> Hierarchy {
        *self.hierarchy
    }

    /// The children being walked.
    pub closed spec fn items(&self) -> Seq<Entity> {
        self.kids@
    }

    /// What the coming calls of `next` return, in order.
    pub closed spec fn forward_run(&self) -> Seq<Entity> {
        self.kids@.subrange(self.front@, self.kids@.len() as int)
    }

    /// What the coming calls of `next_back` return, in order.
    pub closed spec fn backward_run(&self) -> Seq<Entity> {
        self.kids@.subrange(0, self.back@ + 1).reverse()
    }

    pub closed spec fn wf(&self) -> bool {
        let s = self.kids@;
        &&& self.hierarchy.wf()
        &&& 0 <= self.front@ <= s.len()
        &&& -1 <= self.back@ < s.len()
        &&& self.current_forward == (if self.front@ < s.len() { Some(s[self.front@]) } else { None })
        &&& self.current_backward == (if self.back@ >= 0 { Some(s[self.back@]) } else { None })
        &&& forall|j: int| 0 <= j < s.len() ==> {
            let c = #[trigger] s[j];
            &&& self.hierarchy.holds(c)
            &&& self.hierarchy.next_sibling@[Hierarchy::slot(c)] == (if j + 1 < s.len() { Some(s[j + 1]) } else { None })
            &&& self.hierarchy.prev_sibling@[Hierarchy::slot(c)] == (if j > 0 { Some(s[j - 1]) } else { None })
        }
    }

    /// Returns the next child from the front.
    pub fn next(&mut self) -> (r: Option<Entity>)
        requires
            old(self).wf(),
        ensures
            final(self).wf(),
            final(self).tree() == old(self).tree(),
            final(self).items() == old(self).items(),
            final(self).backward_run() == old(self).backward_run(),
            old(self).forward_run().len() > 0 ==> {
                &&& r == Some(old(self).forward_run()[0])
                &&& final(self).forward_run() == old(self).forward_run().drop_first()
            },
            old(self).forward_run().len() == 0 ==> r is None && final(self).forward_run() == old(self).forward_run(),
    {
        if let Some(entity) = self.current_forward {
            self.current_forward = self.hierarchy.next_sibling[entity.index_unchecked()];
            self.front = Ghost(self.front@ + 1);
            proof {
                assert(self.forward_run() =~= old(self).forward_run().drop_first());
            }
            return Some(entity);
        }
        None
    }

    /// Returns the next child from the back.
    pub fn next_back(&mut self) -> (r: Option<Entity>)
        requires
            old(self).wf(),
        ensures
            final(self).wf(),
            final(self).tree() == old(self).tree(),
            final(self).items() == old(self).items(),
            final(self).forward_run() == old(self).forward_run(),
            old(self).backward_run().len() > 0 ==> {
                &&& r == Some(old(self).backward_run()[0])
                &&& final(self).backward_run() == old(self).backward_run().drop_first()
            },
            old(self).backward_run().len() == 0 ==> r is None && final(self).backward_run() == old(self).backward_run(),
    {
        if let Some(entity) = self.current_backward {
            self.current_backward = self.hierarchy.prev_sibling[entity.index_unchecked()];
            self.back = Ghost(self.back@ - 1);
            proof {
                assert(self.backward_run() =~= old(self).backward_run().drop_first());
            }
            return Some(entity);
        }
        None
    }
}

/// Makes a walk up through an entity's ancestors.
pub trait IntoParentIterator<'a> {
    /// The entity the walk starts from.
    spec fn start_spec(&self) -> Entity;

    fn parent_iter(self, hierarchy: &'a Hierarchy) -> (r: ParentIterator<'a>)
        requires
            hierarchy.wf(),
        ensures
            r.tree() == *hierarchy,
            r.current() == Some(self.start_spec()),
    ;
}

impl<'a> IntoParentIterator<'a> for &'a Entity {
    open spec fn start_spec(&self) -> Entity {
        **self
    }

    fn parent_iter(self, h: &'a Hierarchy) -> (r: ParentIterator<'a>) {
        ParentIterator { hierarchy: h, current: Some(*self) }
    }
}

/// Makes a walk over an entity's children.
pub trait IntoChildIterator<'a> {
    /// The entity whose children are walked.
    spec fn start_spec(&self) -> Entity;

    fn child_iter(self, hierarchy: &'a Hierarchy) -> (r: ChildIterator<'a>)
        requires
            hierarchy.wf(),
        ensures
            r.wf(),
            r.tree() == *hierarchy,
            r.items() == (if hierarchy.holds(self.start_spec()) {
                hierarchy.children(Hierarchy::slot(self.start_spec()))
            } else {
                Seq::<Entity>::empty()
            }),
            r.forward_run() == r.items(),
            r.backward_run() == r.items().reverse(),
    ;
}

impl<'a> IntoChildIterator<'a> for &'a Entity {
    open spec fn start_spec(&self) -> Entity {
        **self
    }

    fn child_iter(self, h: &'a Hierarchy) -> (r: ChildIterator<'a>) {
        let e = *self;
        let ghost s = if h.holds(e) { h.children(Hierarchy::slot(e)) } else { Seq::<Entity>::empty() };
        let first = h.get_first_child(e);
        let last = h.get_last_child(e);
        let r = ChildIterator {
            hierarchy: h,
            current_forward: first,
            current_backward: last,
            kids: Ghost(s),
            front: Ghost(0),
            back: Ghost(s.len() - 1),
        };
        proof {
            if h.holds(e) {
                h.lemma_links(Hierarchy::slot(e));
                assert forall|j: int| 0 <= j < s.len() implies {
                    let c = #[trigger] s[j];
                    &&& h.holds(c)
                    &&& h.next_sibling@[Hierarchy::slot(c)] == (if j + 1 < s.len() { Some(s[j + 1]) } else { None })
                    &&& h.prev_sibling@[Hierarchy::slot(c)] == (if j > 0 { Some(s[j - 1]) } else { None })
                } by {
                    assert(h.kid_ok(Hierarchy::slot(e), j));
                }
            }
            assert(r.forward_run() =~= r.items());
            assert(r.backward_run() =~= r.items().reverse());
        }
        r
    }
}

/// Makes a preorder walk that starts at an entity and goes on past its subtree.
pub trait IntoHierarchyIterator<'a> {
    /// The entity the walk starts from.
    spec fn start_spec(&self) -> Entity;

    fn into_iter(self, hierarchy: &'a Hierarchy) -> (r: HierarchyIterator<'a>)
        requires
            hierarchy.wf(),
        ensures
            r.tree() == *hierarchy,
            r.current() == Some(self.start_spec()),
    ;
}

impl<'a> IntoHierarchyIterator<'a> for &'a Entity {
    open spec fn start_spec(&self) -> Entity {
        **self
    }

    fn into_iter(self, h: &'a Hierarchy) -> (r: HierarchyIterator<'a>) {
        HierarchyIterator { hierarchy: h, current_node: Some(*self) }
    }
}

/// Makes a preorder walk of an entity's subtree.
pub trait IntoBranchIterator<'a> {
    /// The entity whose subtree is walked.
    spec fn start_spec(&self) -> Entity;

    fn branch_iter(self, hierarchy: &'a Hierarchy) -> (r: BranchIterator<'a>)
        requires
            hierarchy.wf(),
        ensures
            r.tree() == *hierarchy,
            r.start() == self.start_spec(),
            r.current() == Some(self.start_spec()),
    ;
}

impl<'a> IntoBranchIterator<'a> for &'a Entity {
    open spec fn start_spec(&self) -> Entity {
        **self
    }

    fn branch_iter(self, h: &'a Hierarchy) -> (r: BranchIterator<'a>) {
        BranchIterator { hierarchy: h, start_node: *self, current_node: Some(*self) }
    }
}


/// Questions about an entity's relations within a hierarchy.
pub trait HierarchyTree<'a> {
    /// The entity asked about.
    spec fn node(&self) -> Entity;

    fn parent(&self, hierarchy: &'a Hierarchy) -> (r: Option<Entity>)
        requires
            hierarchy.wf(),
        ensures
            r == (if hierarchy.holds(self.node()) { hierarchy.parent_of(Hierarchy::slot(self.node())) } else { None }),
    ;

    fn is_sibling(&self, hierarchy: &'a Hierarchy, entity: Entity) -> (r: bool)
        requires
            hierarchy.wf(),
        ensures
            r == hierarchy.same_parent(self.node(), entity),
    ;

    fn is_child_of(&self, hierarchy: &'a Hierarchy, entity: Entity) -> (r: bool)
        requires
            hierarchy.wf(),
        ensures
            r == (hierarchy.holds(self.node()) && hierarchy.parent_of(Hierarchy::slot(self.node())) == Some(entity)),
    ;

    /// The entity lies in the subtree of `entity`, which holds it too.
    fn is_descendant_of(&self, hierarchy: &'a Hierarchy, entity: Entity) -> (r: bool)
        requires
            hierarchy.wf(),
        ensures
            r == (hierarchy.holds(self.node()) && descends(
                hierarchy.parents(),
                Hierarchy::slot(self.node()),
                Hierarchy::slot(entity),
            )),
    ;
}

impl<'a> HierarchyTree<'a> for Entity {
    open spec fn node(&self) -> Entity {
        *self
    }

    fn parent(&self, hierarchy: &'a Hierarchy) -> (r: Option<Entity>) {
        hierarchy.get_parent(*self)
    }

    fn is_sibling(&self, hierarchy: &'a Hierarchy, entity: Entity) -> (r: bool) {
        hierarchy.is_sibling(*self, entity)
    }

    fn is_child_of(&self, hierarchy: &'a Hierarchy, entity: Entity) -> (r: bool) {
        if self.is_null() {
            return false;
        }
        match hierarchy.get_parent(*self) {
            Some(parent) => parent == entity,
            None => false,
        }
    }

    fn is_descendant_of(&self, hierarchy: &'a Hierarchy, entity: Entity) -> (r: bool) {
        if self.is_null() || self.index_unchecked() >= hierarchy.parent.len() {
            return false;
        }
        hierarchy.in_subtree(self.index_unchecked(), entity.index_unchecked())
    }
}


/// Removing an entity from its parent and adding it back to the same parent
/// leaves every entity with the same parent, and every parent with as many
/// children as before, and the same ones.
pub proof fn lemma_remove_then_add(h0: &Hierarchy, h1: &Hierarchy, h2: &Hierarchy, e: Entity, parent: Entity)
    requires
        h0.wf(),
        h0.holds(e),
        h0.parent_of(Hierarchy::slot(e)) == Some(parent),
        h0.children(Hierarchy::slot(parent))[h0.position(Hierarchy::slot(e))] == e,
        h1.after_remove(h0, Hierarchy::slot(e)),
        h2.after_append(h1, e, parent),
    ensures
        h2.len() == h0.len(),
        forall|i: int| 0 <= i < h0.len() ==> #[trigger] h2.parent_of(i) == h0.parent_of(i),
        forall|i: int| 0 <= i < h0.len() ==> (#[trigger] h2.children(i)).len() == h0.children(i).len(),
        forall|i: int| 0 <= i < h0.len() ==> (#[trigger] h2.children(i)).to_multiset() == h0.children(i).to_multiset(),
{
    let x = Hierarchy::slot(e);
    let p = Hierarchy::slot(parent);
    h0.lemma_links(x);
    assert(h1.parent_of(x) is None) by {
        assert(h1.parents()[x] == h0.parents().update(x, None)[x]);
    }
    assert forall|i: int| 0 <= i < h0.len() implies #[trigger] h2.parent_of(i) == h0.parent_of(i) by {
        assert(h1.parents()[i] == h0.parents().update(x, None)[i]);
    }
    assert forall|i: int| 0 <= i < h0.len() implies (#[trigger] h2.children(i)).len() == h0.children(i).len()
        && h2.children(i).to_multiset() == h0.children(i).to_multiset() by {
        assert(h1.children(i) == h0.take_out(x, i));
        if i == p {
            let s = h0.children(p);
            let k = h0.position(x);
            vstd::seq_lib::to_multiset_remove(s, k);
            vstd::seq_lib::to_multiset_build(s.remove(k), e);
            assert(s.to_multiset().remove(e).insert(e) =~= s.to_multiset()) by {
                vstd::seq_lib::to_multiset_contains(s, e);
            }
        }
    }
}

/// A full walk of an entity's children from the back yields the walk from the
/// front in reverse, and the same children as often.
pub proof fn lemma_child_walks_reverse(it: &ChildIterator)
    requires
        it.forward_run() == it.items(),
        it.backward_run() == it.items().reverse(),
    ensures
        it.backward_run() == it.forward_run().reverse(),
        it.backward_run().to_multiset() == it.forward_run().to_multiset(),
{
    it.items().lemma_reverse_to_multiset();
}

/// Walking `a` and then `b` steps up from slot `i` is walking `a + b` steps.
pub proof fn lemma_ancestor_add(parents: Seq<Option<Entity>>, i: int, a: nat, b: nat)
    requires
        ancestor(parents, i, a) is Some,
    ensures
        ancestor(parents, i, a + b) == ancestor(parents, ancestor(parents, i, a).unwrap(), b),
    decreases a,
{
    if a > 0 {
        let q = parents[i].unwrap();
        lemma_ancestor_add(parents, q.index_spec() as int, (a - 1) as nat, b);
        assert((a + b - 1) as nat == (a - 1) as nat + b);
    }
}

/// Following parent links from any entity of the hierarchy ends, after finitely
/// many steps, at an entity without a parent.
pub proof fn lemma_ancestors_end(h: &Hierarchy, i: int)
    requires
        h.wf(),
        0 <= i < h.len(),
    ensures
        exists|k: nat| #[trigger] ancestor(h.parents(), i, k) matches Some(t) && 0 <= t < h.len() && h.parent_of(t) is None,
    decreases h.ranks()[i],
{
    assert(h.parent_ok(i));
    match h.parent_of(i) {
        None => {
            assert(ancestor(h.parents(), i, 0) == Some(i));
        },
        Some(q) => {
            let p = q.index_spec() as int;
            lemma_ancestors_end(h, p);
            let k = choose|k: nat| #[trigger] ancestor(h.parents(), p, k) matches Some(t) && 0 <= t < h.len() && h.parent_of(t) is None;
            assert(ancestor(h.parents(), i, k + 1) == ancestor(h.parents(), p, k));
        },
    }
}

/// Following parent links from an entity below the root ends at the root, and
/// nowhere else.
pub proof fn lemma_ancestors_end_at_root(h: &Hierarchy, i: int, k: nat)
    requires
        h.wf(),
        0 <= i < h.len(),
        descends(h.parents(), i, 0),
        ancestor(h.parents(), i, k) matches Some(t) && 0 <= t < h.len() && h.parent_of(t) is None,
    ensures
        ancestor(h.parents(), i, k) == Some(0int),
{
    let P = h.parents();
    let k0 = choose|k0: nat| ancestor(P, i, k0) == Some(0int);
    let t = ancestor(P, i, k).unwrap();
    assert(P[0] is None) by {
        assert(h.parent_of(0) is None) by {
            assert(h.parent_ok(0));
        }
    }
    if k0 < k {
        lemma_ancestor_add(P, i, k0, (k - k0) as nat);
        assert(ancestor(P, 0, (k - k0) as nat) is None);
    } else if k < k0 {
        lemma_ancestor_add(P, i, k, (k0 - k) as nat);
        assert(ancestor(P, t, (k0 - k) as nat) is None);
    }
}


impl Hierarchy {
    /// The entity that a preorder walk visits after `e`.
    pub open spec fn walk_next(&self, e: Entity) -> Option<Entity> {
        if self.holds(e) {
            self.preorder_next(Self::slot(e))
        } else {
            None
        }
    }

    /// `nodes` is the preorder walk from the root, cut off after as many entities
    /// as there are slots.
    pub open spec fn is_walk(&self, nodes: Seq<Entity>) -> bool {
        &&& 0 < nodes.len() <= self.len()
        &&& nodes[0] == Entity(0)
        &&& forall|j: int| 0 <= j < nodes.len() - 1 ==> Some(#[trigger] nodes[j + 1]) == self.walk_next(nodes[j])
        &&& nodes.len() < self.len() ==> self.walk_next(nodes.last()) is None
    }

    /// The entities in preorder, from the root: each entity before its children,
    /// and children in order.
    pub fn preorder(&self) -> (r: Vec<Entity>)
        requires
            self.wf(),
        ensures
            self.is_walk(r@),
    {
        let n = self.parent.len();
        let mut it = self.iter();
        let mut r: Vec<Entity> = Vec::new();
        while r.len() < n
            invariant
                self.wf(),
                n == self.len(),
                it.tree() == *self,
                r@.len() <= n,
                r@.len() == 0 ==> it.current() == Some(Entity(0)),
                r@.len() > 0 ==> r@[0] == Entity(0) && it.current() == self.walk_next(r@.last()),
                forall|j: int| 0 <= j < r@.len() - 1 ==> Some(#[trigger] r@[j + 1]) == self.walk_next(r@[j]),
            ensures
                0 < r@.len() ==> (r@.len() < n ==> self.walk_next(r@.last()) is None),
                r@.len() > 0,
            decreases n - r@.len(),
        {
            let ghost before = r@;
            match it.next() {
                Some(e) => {
                    r.push(e);
                    proof {
                        assert forall|j: int| 0 <= j < r@.len() - 1 implies Some(#[trigger] r@[j + 1]) == self.walk_next(r@[j]) by {
                            if j < before.len() - 1 {
                                assert(r@[j + 1] == before[j + 1]);
                            }
                        }
                    }
                }
                None => {
                    break;
                }
            }
        }
        r
    }
}


impl Hierarchy {
    /// The walk reached a slot, and that slot has no next sibling.
    pub open spec fn no_next_at(&self, a: Option<int>) -> bool {
        match a {
            Some(x) => self.next_of(x) is None,
            None => false,
        }
    }

    /// Slot `i` lies `m` steps below slot `b`, and each slot on the way up,
    /// `b` excluded, has no next sibling.
    pub open spec fn last_path(&self, i: int, b: int, m: nat) -> bool {
        &&& ancestor(self.parents(), i, m) == Some(b)
        &&& forall|t: nat| t < m ==> self.no_next_at(#[trigger] ancestor(self.parents(), i, t))
    }

    /// Once the subtree of `i` is done, preorder goes on at the next sibling of a
    /// slot `b` that `i` lies below along last children.
    proof fn lemma_after_subtree_path(&self, i: int)
        requires
            self.wf(),
            0 <= i < self.len(),
            self.after_subtree(i) is Some,
        ensures
            exists|b: int, m: nat| #[trigger] self.last_path(i, b, m) && 0 <= b < self.len()
                && self.next_of(b) == self.after_subtree(i),
        decreases self.ranks()[i],
    {
        assert(self.parent_ok(i));
        if self.next_of(i) is Some {
            assert(self.last_path(i, i, 0));
        } else {
            let q = self.parent_of(i).unwrap();
            let qi = Self::slot(q);
            self.lemma_links(i);
            assert(self.parent_ok(qi));
            self.lemma_after_subtree_path(qi);
            let (b, m) = choose|b: int, m: nat| #[trigger] self.last_path(qi, b, m) && 0 <= b < self.len()
                && self.next_of(b) == self.after_subtree(qi);
            assert(ancestor(self.parents(), i, m + 1) == ancestor(self.parents(), qi, m));
            assert forall|t: nat| t < m + 1 implies self.no_next_at(#[trigger] ancestor(self.parents(), i, t)) by {
                if t > 0 {
                    assert(ancestor(self.parents(), i, t) == ancestor(self.parents(), qi, (t - 1) as nat));
                }
            }
            assert(self.last_path(i, b, m + 1));
        }
    }

    /// A slot with a next sibling `c` is the slot just before `c`.
    proof fn lemma_next_of_unique(&self, b1: int, b2: int)
        requires
            self.wf(),
            0 <= b1 < self.len(),
            0 <= b2 < self.len(),
            self.next_of(b1) is Some,
            self.next_of(b2) is Some,
            Self::slot(self.next_of(b1).unwrap()) == Self::slot(self.next_of(b2).unwrap()),
        ensures
            b1 == b2,
            self.position(Self::slot(self.next_of(b1).unwrap())) >= 1,
    {
        self.lemma_links(b1);
        self.lemma_links(b2);
        let q1 = Self::slot(self.parent_of(b1).unwrap());
        let q2 = Self::slot(self.parent_of(b2).unwrap());
        self.lemma_links(q1);
        self.lemma_links(q2);
        let c = Self::slot(self.next_of(b1).unwrap());
        assert(self.position(c) == self.position(b1) + 1);
        assert(self.position(c) == self.position(b2) + 1);
    }

    /// Two slots the same number of steps below `b` along last children are one.
    proof fn lemma_last_path_same_length(&self, x1: int, x2: int, b: int, m: nat)
        requires
            self.wf(),
            0 <= x1 < self.len(),
            0 <= x2 < self.len(),
            self.last_path(x1, b, m),
            self.last_path(x2, b, m),
        ensures
            x1 == x2,
        decreases m,
    {
        if m > 0 {
            assert(ancestor(self.parents(), x1, 0) == Some(x1));
            assert(ancestor(self.parents(), x2, 0) == Some(x2));
            let par1 = self.parents()[x1].unwrap();
            let par2 = self.parents()[x2].unwrap();
            let s1 = Self::slot(par1);
            let s2 = Self::slot(par2);
            self.lemma_links(x1);
            self.lemma_links(x2);
            assert forall|t: nat| t < (m - 1) as nat implies self.no_next_at(#[trigger] ancestor(self.parents(), s1, t)) by {
                assert(ancestor(self.parents(), x1, t + 1) == ancestor(self.parents(), s1, t));
            }
            assert forall|t: nat| t < (m - 1) as nat implies self.no_next_at(#[trigger] ancestor(self.parents(), s2, t)) by {
                assert(ancestor(self.parents(), x2, t + 1) == ancestor(self.parents(), s2, t));
            }
            assert(self.last_path(s1, b, (m - 1) as nat));
            assert(self.last_path(s2, b, (m - 1) as nat));
            self.lemma_last_path_same_length(s1, s2, b, (m - 1) as nat);
        }
    }

    /// A slot without children that lies below `b` along last children is unique.
    proof fn lemma_last_leaf_unique(&self, i1: int, i2: int, b: int, m1: nat, m2: nat)
        requires
            self.wf(),
            0 <= i1 < self.len(),
            0 <= i2 < self.len(),
            self.children(i1).len() == 0,
            self.children(i2).len() == 0,
            self.last_path(i1, b, m1),
            self.last_path(i2, b, m2),
            m1 <= m2,
        ensures
            i1 == i2,
    {
        let d = (m2 - m1) as nat;
        let ps = self.parents();
        lemma_ancestor_add(ps, i2, d, m1);
        assert(d + m1 == m2);
        let y = ancestor(ps, i2, d).unwrap();
        assert forall|t: nat| t < m1 implies self.no_next_at(#[trigger] ancestor(ps, y, t)) by {
            lemma_ancestor_add(ps, i2, d, t);
            assert(self.no_next_at(ancestor(ps, i2, d + t)));
        }
        self.lemma_ancestor_in_range(i2, d);
        assert(self.last_path(y, b, m1));
        self.lemma_last_path_same_length(i1, y, b, m1);
        if d > 0 {
            assert(self.parent_ok(i2));
            let q = Self::slot(self.parents()[i2].unwrap());
            assert(ancestor(ps, q, (d - 1) as nat) == Some(y));
            self.lemma_descends_rank(q, y, (d - 1) as nat);
            self.lemma_descends_has_child(i2, y, d);
        }
    }

    /// The slots reached by following parent links stay in range.
    proof fn lemma_ancestor_in_range(&self, i: int, k: nat)
        requires
            self.wf(),
            0 <= i < self.len(),
            ancestor(self.parents(), i, k) is Some,
        ensures
            0 <= ancestor(self.parents(), i, k).unwrap() < self.len(),
        decreases k,
    {
        if k > 0 {
            assert(self.parent_ok(i));
            let q = self.parents()[i].unwrap();
            self.lemma_ancestor_in_range(Self::slot(q), (k - 1) as nat);
        }
    }

    /// What preorder visits after a slot is a child of some slot, held at its place.
    proof fn lemma_preorder_next_is_kid(&self, i: int)
        requires
            self.wf(),
            0 <= i < self.len(),
            self.preorder_next(i) is Some,
        ensures
            ({
                let c = self.preorder_next(i).unwrap();
                &&& self.holds(c)
                &&& Self::slot(c) != 0
                &&& self.parent_of(Self::slot(c)) is Some
                &&& self.children(Self::slot(self.parent_of(Self::slot(c)).unwrap()))[self.position(Self::slot(c))] == c
            }),
    {
        let c = self.preorder_next(i).unwrap();
        self.lemma_links(i);
        if self.first_of(i) is None {
            self.lemma_after_subtree_path(i);
            let (b, m) = choose|b: int, m: nat| #[trigger] self.last_path(i, b, m) && 0 <= b < self.len()
                && self.next_of(b) == self.after_subtree(i);
            self.lemma_links(b);
            let q = Self::slot(self.parent_of(b).unwrap());
            self.lemma_links(q);
        }
        self.lemma_links(Self::slot(c));
        assert(self.parent_ok(0));
        assert(self.parents()[0] is None);
    }

    /// Two slots that preorder leaves for the same slot are one.
    proof fn lemma_preorder_next_injective(&self, i: int, j: int)
        requires
            self.wf(),
            0 <= i < self.len(),
            0 <= j < self.len(),
            self.preorder_next(i) is Some,
            self.preorder_next(j) is Some,
            Self::slot(self.preorder_next(i).unwrap()) == Self::slot(self.preorder_next(j).unwrap()),
        ensures
            i == j,
    {
        self.lemma_links(i);
        self.lemma_links(j);
        let c = Self::slot(self.preorder_next(i).unwrap());
        if self.first_of(i) is Some {
            self.lemma_links(c);
            if self.first_of(j) is None {
                self.lemma_after_subtree_path(j);
                let (b, m) = choose|b: int, m: nat| #[trigger] self.last_path(j, b, m) && 0 <= b < self.len()
                    && self.next_of(b) == self.after_subtree(j);
                self.lemma_links(b);
                self.lemma_next_of_unique(b, b);
            }
        } else {
            self.lemma_after_subtree_path(i);
            let (b1, m1) = choose|b: int, m: nat| #[trigger] self.last_path(i, b, m) && 0 <= b < self.len()
                && self.next_of(b) == self.after_subtree(i);
            self.lemma_next_of_unique(b1, b1);
            if self.first_of(j) is Some {
                self.lemma_links(c);
            } else {
                self.lemma_after_subtree_path(j);
                let (b2, m2) = choose|b: int, m: nat| #[trigger] self.last_path(j, b, m) && 0 <= b < self.len()
                    && self.next_of(b) == self.after_subtree(j);
                self.lemma_next_of_unique(b1, b2);
                if m1 <= m2 {
                    self.lemma_last_leaf_unique(i, j, b1, m1, m2);
                } else {
                    self.lemma_last_leaf_unique(j, i, b1, m2, m1);
                }
            }
        }
    }
}

/// The preorder walk from the root visits no entity twice.
proof fn lemma_walk_visits_once(h: &Hierarchy, nodes: Seq<Entity>)
    requires
        h.wf(),
        h.is_walk(nodes),
    ensures
        nodes.no_duplicates(),
{
    assert forall|j: int| 0 <= j < nodes.len() implies (forall|i: int| 0 <= i < j ==> nodes[i] != #[trigger] nodes[j]) by {
        lemma_walk_prefix_distinct(h, nodes, j);
    }
}

proof fn lemma_walk_step(h: &Hierarchy, nodes: Seq<Entity>, k: int)
    requires
        h.is_walk(nodes),
        0 <= k < nodes.len() - 1,
    ensures
        Some(nodes[k + 1]) == h.walk_next(nodes[k]),
        h.holds(nodes[k]),
        h.preorder_next(Hierarchy::slot(nodes[k])) == Some(nodes[k + 1]),
{
    assert(Some(nodes[k + 1]) == h.walk_next(nodes[k]));
}

proof fn lemma_walk_prefix_distinct(h: &Hierarchy, nodes: Seq<Entity>, j: int)
    requires
        h.wf(),
        h.is_walk(nodes),
        0 <= j < nodes.len(),
    ensures
        forall|i: int| 0 <= i < j ==> nodes[i] != #[trigger] nodes[j],
    decreases j,
{
    if j > 0 {
        lemma_walk_prefix_distinct(h, nodes, j - 1);
        lemma_walk_step(h, nodes, j - 1);
        let pj = Hierarchy::slot(nodes[j - 1]);
        h.lemma_preorder_next_is_kid(pj);
        assert forall|i: int| 0 <= i < j implies nodes[i] != #[trigger] nodes[j] by {
            if i == 0 {
                assert(h.parent_ok(0));
            } else {
                lemma_walk_prefix_distinct(h, nodes, i);
                lemma_walk_step(h, nodes, i - 1);
                let pi = Hierarchy::slot(nodes[i - 1]);
                h.lemma_preorder_next_is_kid(pi);
                if nodes[i] == nodes[j] {
                    h.lemma_preorder_next_injective(pi, pj);
                    if i - 1 == 0 {
                        h.lemma_preorder_next_is_kid(pj);
                        if j - 1 > 0 {
                            lemma_walk_step(h, nodes, j - 2);
                            h.lemma_preorder_next_is_kid(Hierarchy::slot(nodes[j - 2]));
                        }
                    } else {
                        lemma_walk_step(h, nodes, i - 2);
                        h.lemma_preorder_next_is_kid(Hierarchy::slot(nodes[i - 2]));
                        lemma_walk_step(h, nodes, j - 2);
                        h.lemma_preorder_next_is_kid(Hierarchy::slot(nodes[j - 2]));
                    }
                }
            }
        }
    }
}


impl Hierarchy {
    /// Slot `t` is a later sibling of slot `a`.
    pub open spec fn sib_after(&self, a: int, t: int) -> bool {
        &&& 0 <= a < self.len()
        &&& 0 <= t < self.len()
        &&& self.parent_of(a) is Some
        &&& self.parent_of(t) is Some
        &&& Self::slot(self.parent_of(a).unwrap()) == Self::slot(self.parent_of(t).unwrap())
        &&& self.position(t) > self.position(a)
    }

    /// Slot `x` lies in the subtree of `t`, a later sibling of `a`, which is `v`
    /// or one of its ancestors.
    pub open spec fn pending_via(&self, v: int, x: int, a: int, t: int) -> bool {
        &&& descends(self.parents(), v, a)
        &&& self.sib_after(a, t)
        &&& descends(self.parents(), x, t)
    }

    /// Once preorder stands at slot `v`, slot `x` is still to come: it lies
    /// strictly below `v`, or in the subtree of a later sibling of `v` or of one
    /// of `v`'s ancestors.
    pub open spec fn pending(&self, v: int, x: int) -> bool {
        ||| (descends(self.parents(), x, v) && x != v)
        ||| exists|a: int, t: int| #[trigger] self.pending_via(v, x, a, t)
    }

    /// A slot strictly below `a` lies in the subtree of a child of `a`.
    proof fn lemma_desc_child(&self, x: int, a: int, k: nat) -> (ch: int)
        requires
            self.wf(),
            0 <= x < self.len(),
            ancestor(self.parents(), x, k) == Some(a),
            x != a,
        ensures
            0 <= ch < self.len(),
            self.parent_of(ch) is Some,
            Self::slot(self.parent_of(ch).unwrap()) == a,
            descends(self.parents(), x, ch),
        decreases k,
    {
        assert(self.parent_ok(x));
        let q = Self::slot(self.parents()[x].unwrap());
        lemma_descends_step(self.parents(), x, x);
        if q == a {
            x
        } else {
            let ch = self.lemma_desc_child(q, a, (k - 1) as nat);
            lemma_descends_step(self.parents(), x, ch);
            ch
        }
    }

    /// Where preorder finds no next slot after `v`, no ancestor of `v`, nor
    /// `v`, has a next sibling.
    proof fn lemma_no_next_above(&self, v: int, k: nat)
        requires
            self.wf(),
            0 <= v < self.len(),
            self.after_subtree(v) is None,
            ancestor(self.parents(), v, k) is Some,
        ensures
            self.next_of(ancestor(self.parents(), v, k).unwrap()) is None,
        decreases k,
    {
        assert(self.parent_ok(v));
        if k > 0 {
            let q = Self::slot(self.parents()[v].unwrap());
            assert(self.parent_ok(q));
            self.lemma_no_next_above(q, (k - 1) as nat);
        }
    }

    /// Nothing is pending where preorder ends.
    proof fn lemma_end_no_pending(&self, v: int, x: int)
        requires
            self.wf(),
            0 <= v < self.len(),
            self.preorder_next(v) is None,
        ensures
            !self.pending(v, x),
    {
        self.lemma_links(v);
        if descends(self.parents(), x, v) && x != v {
            let k = choose|k: nat| ancestor(self.parents(), x, k) == Some(v);
            if 0 <= x < self.len() {
                self.lemma_descends_has_child(x, v, k);
            } else {
                assert(k > 0);
            }
        }
        if exists|a: int, t: int| #[trigger] self.pending_via(v, x, a, t) {
            let (a, t) = choose|a: int, t: int| #[trigger] self.pending_via(v, x, a, t);
            let ka = choose|k: nat| ancestor(self.parents(), v, k) == Some(a);
            self.lemma_no_next_above(v, ka);
            let q = Self::slot(self.parent_of(a).unwrap());
            self.lemma_links(a);
            self.lemma_links(t);
        }
    }

    /// What is pending at `v` is the slot preorder visits next, or is still
    /// pending there.
    proof fn lemma_step_pending(&self, v: int, x: int)
        requires
            self.wf(),
            0 <= v < self.len(),
            0 <= x < self.len(),
            self.pending(v, x),
            self.preorder_next(v) is Some,
        ensures
            Self::slot(self.preorder_next(v).unwrap()) == x || self.pending(Self::slot(self.preorder_next(v).unwrap()), x),
    {
        let ps = self.parents();
        self.lemma_links(v);
        let c = Self::slot(self.preorder_next(v).unwrap());
        self.lemma_preorder_next_is_kid(v);
        self.lemma_links(c);
        if self.first_of(v) is Some {
            // `c` is the first child of `v`.
            lemma_descends_step(ps, c, c);
            if descends(ps, x, v) && x != v {
                let k = choose|k: nat| ancestor(ps, x, k) == Some(v);
                let ch = self.lemma_desc_child(x, v, k);
                if ch != c {
                    self.lemma_links(ch);
                    assert(self.position(ch) != 0) by {
                        self.lemma_children_placed(v);
                        assert(self.children(v)[0] == self.first_of(v).unwrap());
                    }
                    assert(self.pending_via(c, x, c, ch));
                } else if x != c {
                    assert(descends(ps, x, c) && x != c);
                }
            } else {
                let (a, t) = choose|a: int, t: int| #[trigger] self.pending_via(v, x, a, t);
                lemma_descends_step(ps, c, a);
                assert(self.pending_via(c, x, a, t));
            }
        } else {
            // `v` has no children: preorder goes on at the next sibling `c` of `b`.
            if descends(ps, x, v) && x != v {
                let k = choose|k: nat| ancestor(ps, x, k) == Some(v);
                self.lemma_descends_has_child(x, v, k);
            }
            let (a, t) = choose|a: int, t: int| #[trigger] self.pending_via(v, x, a, t);
            let ka = choose|k: nat| ancestor(ps, v, k) == Some(a);
            self.lemma_after_subtree_path(v);
            let (b, m) = choose|b: int, m: nat| #[trigger] self.last_path(v, b, m) && 0 <= b < self.len()
                && self.next_of(b) == self.after_subtree(v);
            self.lemma_links(a);
            self.lemma_links(t);
            self.lemma_links(b);
            let pa = Self::slot(self.parent_of(a).unwrap());
            self.lemma_links(pa);
            assert(self.next_of(a) is Some);
            if ka < m {
                assert(self.no_next_at(ancestor(ps, v, ka)));
            }
            lemma_ancestor_add(ps, v, m, (ka - m) as nat);
            let pb = Self::slot(self.parent_of(b).unwrap());
            self.lemma_links(pb);
            if ka == m {
                // `t` is `c` or a later sibling of it.
                if t == c {
                    if x != c {
                        assert(descends(ps, x, c) && x != c);
                    }
                } else {
                    self.lemma_children_placed(pb);
                    assert(self.position(t) != self.position(c));
                    lemma_descends_step(ps, c, c);
                    assert(self.pending_via(c, x, c, t));
                }
            } else {
                // `a` lies above `b`, so above `c` as well.
                assert(ancestor(ps, b, (ka - m) as nat) == Some(a));
                let d = (ka - m - 1) as nat;
                assert(ancestor(ps, pb, d) == Some(a));
                lemma_descends_step(ps, c, a);
                assert(self.pending_via(c, x, a, t));
            }
        }
    }
}

/// Along a preorder walk from the root, every slot below the root has been
/// visited or is still pending.
proof fn lemma_walk_covers(h: &Hierarchy, nodes: Seq<Entity>, k: int, x: int)
    requires
        h.wf(),
        h.is_walk(nodes),
        0 <= k < nodes.len(),
        0 <= x < h.len(),
        descends(h.parents(), x, 0),
    ensures
        (exists|i: int| 0 <= i <= k && Hierarchy::slot(#[trigger] nodes[i]) == x) || h.pending(Hierarchy::slot(nodes[k]), x),
    decreases k,
{
    if k == 0 {
        assert(Hierarchy::slot(nodes[0]) == 0);
        if x == 0 {
            assert(Hierarchy::slot(nodes[0]) == x);
        }
    } else {
        lemma_walk_covers(h, nodes, k - 1, x);
        lemma_walk_step(h, nodes, k - 1);
        if exists|i: int| 0 <= i <= k - 1 && Hierarchy::slot(#[trigger] nodes[i]) == x {
            let i = choose|i: int| 0 <= i <= k - 1 && Hierarchy::slot(#[trigger] nodes[i]) == x;
            assert(0 <= i <= k && Hierarchy::slot(nodes[i]) == x);
        } else {
            let v = Hierarchy::slot(nodes[k - 1]);
            h.lemma_step_pending(v, x);
            if Hierarchy::slot(nodes[k]) == x {
                assert(0 <= k <= k && Hierarchy::slot(nodes[k]) == x);
            }
        }
    }
}

/// A preorder walk from the root that reached its end visited every entity
/// below the root.
proof fn lemma_walk_visits_all(h: &Hierarchy, nodes: Seq<Entity>)
    requires
        h.wf(),
        h.is_walk(nodes),
        h.walk_next(nodes.last()) is None,
    ensures
        forall|x: int| 0 <= x < h.len() && descends(h.parents(), x, 0) ==>
            exists|i: int| 0 <= i < nodes.len() && Hierarchy::slot(#[trigger] nodes[i]) == x,
{
    assert forall|x: int| 0 <= x < h.len() && descends(h.parents(), x, 0) implies
        exists|i: int| 0 <= i < nodes.len() && Hierarchy::slot(#[trigger] nodes[i]) == x by {
        let k = nodes.len() - 1;
        lemma_walk_covers(h, nodes, k, x);
        let v = Hierarchy::slot(nodes[k]);
        if h.holds(nodes[k]) {
            h.lemma_end_no_pending(v, x);
        } else {
            assert(k > 0 ==> h.holds(nodes[k])) by {
                if k > 0 {
                    lemma_walk_step(h, nodes, k - 1);
                    h.lemma_preorder_next_is_kid(Hierarchy::slot(nodes[k - 1]));
                }
            }
            assert(nodes[0] == Entity(0));
        }
    }
}


/// What preorder visits after a slot below the root lies below the root too.
proof fn lemma_next_in_tree(h: &Hierarchy, v: int)
    requires
        h.wf(),
        0 <= v < h.len(),
        descends(h.parents(), v, 0),
        h.preorder_next(v) is Some,
    ensures
        descends(h.parents(), Hierarchy::slot(h.preorder_next(v).unwrap()), 0),
{
    let ps = h.parents();
    h.lemma_links(v);
    let c = Hierarchy::slot(h.preorder_next(v).unwrap());
    h.lemma_preorder_next_is_kid(v);
    h.lemma_links(c);
    if h.first_of(v) is Some {
        lemma_descends_step(ps, c, 0);
    } else {
        h.lemma_after_subtree_path(v);
        let (b, m) = choose|b: int, m: nat| #[trigger] h.last_path(v, b, m) && 0 <= b < h.len()
            && h.next_of(b) == h.after_subtree(v);
        h.lemma_links(b);
        let pb = Hierarchy::slot(h.parent_of(b).unwrap());
        h.lemma_links(pb);
        let k0 = choose|k: nat| ancestor(ps, v, k) == Some(0int);
        assert(ancestor(ps, pb, 0) == Some(pb));
        assert(ps[b] == h.parent_of(b));
        assert(ancestor(ps, b, 1) == Some(pb));
        lemma_ancestor_add(ps, v, m, 1);
        if m + 1 <= k0 {
            lemma_ancestor_add(ps, v, m + 1, (k0 - m - 1) as nat);
            assert(ancestor(ps, pb, (k0 - m - 1) as nat) == Some(0int));
        } else {
            lemma_ancestor_add(ps, v, k0, (m + 1 - k0) as nat);
            assert(h.parent_ok(0));
            assert(ancestor(ps, 0, (m + 1 - k0) as nat) is None);
        }
        lemma_descends_step(ps, c, 0);
    }
}

/// Every entity of a preorder walk from the root lies below the root, and
/// entities at different steps have different slots.
proof fn lemma_walk_slots(h: &Hierarchy, nodes: Seq<Entity>, k: int)
    requires
        h.wf(),
        h.is_walk(nodes),
        0 <= k < nodes.len(),
    ensures
        h.holds(nodes[k]),
        descends(h.parents(), Hierarchy::slot(nodes[k]), 0),
        forall|i: int| 0 <= i < k ==> Hierarchy::slot(#[trigger] nodes[i]) != Hierarchy::slot(nodes[k]),
    decreases k,
{
    if k == 0 {
        assert(ancestor(h.parents(), 0, 0) == Some(0int));
    } else {
        lemma_walk_slots(h, nodes, k - 1);
        lemma_walk_step(h, nodes, k - 1);
        lemma_next_in_tree(h, Hierarchy::slot(nodes[k - 1]));
        h.lemma_preorder_next_is_kid(Hierarchy::slot(nodes[k - 1]));
        lemma_walk_prefix_distinct(h, nodes, k);
        assert forall|i: int| 0 <= i < k implies Hierarchy::slot(#[trigger] nodes[i]) != Hierarchy::slot(nodes[k]) by {
            if i == 0 {
                assert(h.parent_ok(0));
            } else {
                lemma_walk_step(h, nodes, i - 1);
                h.lemma_preorder_next_is_kid(Hierarchy::slot(nodes[i - 1]));
            }
        }
    }
}

/// The preorder walk from the root visits every entity below the root, once
/// each, and nothing else.
pub proof fn lemma_preorder_visits_each_once(h: &Hierarchy, nodes: Seq<Entity>)
    requires
        h.wf(),
        h.is_walk(nodes),
    ensures
        nodes.no_duplicates(),
        forall|i: int| 0 <= i < nodes.len() ==> descends(h.parents(), Hierarchy::slot(#[trigger] nodes[i]), 0),
        forall|x: int| 0 <= x < h.len() && descends(h.parents(), x, 0) ==>
            exists|i: int| 0 <= i < nodes.len() && Hierarchy::slot(#[trigger] nodes[i]) == x,
{
    lemma_walk_visits_once(h, nodes);
    assert forall|i: int| 0 <= i < nodes.len() implies descends(h.parents(), Hierarchy::slot(#[trigger] nodes[i]), 0) by {
        lemma_walk_slots(h, nodes, i);
    }
    if h.walk_next(nodes.last()) is None {
        lemma_walk_visits_all(h, nodes);
    } else {
        // The walk was cut off after as many steps as there are slots: its
        // entities, on distinct slots, fill every slot.
        assert(nodes.len() == h.len());
        let f = |i: int| Hierarchy::slot(nodes[i]);
        let dom = vstd::set_lib::set_int_range(0, nodes.len() as int);
        let all = vstd::set_lib::set_int_range(0, h.len() as int);
        vstd::set_lib::lemma_int_range(0, nodes.len() as int);
        assert forall|i1: int, i2: int| dom.contains(i1) && dom.contains(i2) && f(i1) == f(i2) implies i1 == i2 by {
            if i1 < i2 {
                lemma_walk_slots(h, nodes, i2);
            } else if i2 < i1 {
                lemma_walk_slots(h, nodes, i1);
            }
        }
        vstd::set_lib::lemma_map_size(dom, dom.map(f), f);
        assert forall|y: int| dom.map(f).contains(y) implies all.contains(y) by {
            let i = choose|i: int| dom.contains(i) && f(i) == y;
            lemma_walk_slots(h, nodes, i);
        }
        vstd::set_lib::lemma_subset_equality(dom.map(f), all);
        assert forall|x: int| 0 <= x < h.len() && descends(h.parents(), x, 0) implies
            exists|i: int| 0 <= i < nodes.len() && Hierarchy::slot(#[trigger] nodes[i]) == x by {
            assert(all.contains(x));
            assert(dom.map(f).contains(x));
            let i = choose|i: int| dom.contains(i) && f(i) == x;
            assert(Hierarchy::slot(nodes[i]) == x);
        }
    }
}

} // verus!
