use std::collections::VecDeque;
use vstd::prelude::*;

verus! {

/// Number of low bits of an entity id that hold its index.
pub const ENTITY_INDEX_BITS: u32 = 24;

/// Mask selecting the index bits of an entity id.
pub const ENTITY_INDEX_MASK: u32 = 0xff_ffff;

/// Mask selecting the generation once shifted down.
pub const ENTITY_GENERATION_MASK: u32 = 0xff;

/// The all-ones index, reserved for the null entity; no live entity uses it.
pub const ENTITY_MAX: u32 = 0xff_ffff;

/// Freed indices are only reused once more than this many wait in the free queue.
pub const MINIMUM_FREE_INDICES: usize = 1024;

/// `2^24`: the weight of the generation inside an entity id.
pub open spec fn index_span() -> nat {
    0x100_0000
}

/// An entity: an opaque generational identifier of a widget.
///
/// The low 24 bits of the id hold the index (the slot in every store), the high
/// 8 bits the generation, which tells a reissued index from its earlier occupant.
/// The id with all bits set is the null entity.
#[derive(Clone, Copy, Debug, PartialEq, Eq, Hash, Structural)]
pub struct Entity(pub u32);

impl Entity {
    /// The index encoded in the id.
    pub open spec fn index_spec(self) -> nat {
        (self.0 as nat) % index_span()
    }

    /// The generation encoded in the id.
    pub open spec fn generation_spec(self) -> nat {
        (self.0 as nat) / index_span()
    }

    pub open spec fn is_null_spec(self) -> bool {
        self.0 == u32::MAX
    }

    /// The entity with the given index and generation.
    pub open spec fn spec_new(index: nat, generation: nat) -> Entity {
        Entity((index + generation * index_span()) as u32)
    }

    /// Index and generation can be told from the id, and they determine it.
    pub proof fn lemma_decode(index: nat, generation: nat)
        requires
            index < ENTITY_MAX,
            generation < 256,
        ensures
            Self::spec_new(index, generation).index_spec() == index,
            Self::spec_new(index, generation).generation_spec() == generation,
            !Self::spec_new(index, generation).is_null_spec(),
    {
        let id = index + generation * index_span();
        assert(id < 0x1_0000_0000 - 1) by (nonlinear_arith)
            requires index < 0xff_ffff, generation < 256, id == index + generation * 0x100_0000;
        vstd::arithmetic::div_mod::lemma_fundamental_div_mod_converse(
            id as int,
            index_span() as int,
            generation as int,
            index as int,
        );
    }

    /// Two entities with the same index and generation are the same entity.
    pub proof fn lemma_encoding_injective(a: Entity, b: Entity)
        requires
            a.index_spec() == b.index_spec(),
            a.generation_spec() == b.generation_spec(),
        ensures
            a == b,
    {
        vstd::arithmetic::div_mod::lemma_fundamental_div_mod(a.0 as int, index_span() as int);
        vstd::arithmetic::div_mod::lemma_fundamental_div_mod(b.0 as int, index_span() as int);
    }

    /// The null entity: a placeholder that can never be used to reach stored data.
    pub fn null() -> (r: Entity)
        ensures
            r.is_null_spec(),
    {
        Entity(u32::MAX)
    }

    /// The root entity (index 0, generation 0), which stands for the main window.
    pub fn root() -> (r: Entity)
        ensures
            r == Entity(0),
            r.index_spec() == 0,
            r.generation_spec() == 0,
            !r.is_null_spec(),
    {
        Entity(0)
    }

    /// The entity with the given index and generation.
    pub fn new(index: u32, generation: u32) -> (r: Entity)
        requires
            index < ENTITY_MAX,
            generation < 256,
        ensures
            r == Self::spec_new(index as nat, generation as nat),
            r.index_spec() == index,
            r.generation_spec() == generation,
            !r.is_null_spec(),
    {
        proof {
            Self::lemma_decode(index as nat, generation as nat);
        }
        assert((index | (generation << 24u32)) == index + generation * 0x100_0000u32) by (bit_vector)
            requires
                index < 0xff_ffff,
                generation < 256,
        ;
        Entity(index | (generation << ENTITY_INDEX_BITS))
    }

    /// Returns true if the entity is null.
    pub fn is_null(&self) -> (r: bool)
        ensures
            r == self.is_null_spec(),
    {
        self.0 == u32::MAX
    }

    /// The index of the entity, or `None` for the null entity.
    pub fn index(&self) -> (r: Option<usize>)
        ensures
            self.is_null_spec() ==> r.is_none(),
            !self.is_null_spec() ==> r == Some(self.index_spec() as usize),
    {
        if self.0 < u32::MAX {
            Some(self.index_unchecked())
        } else {
            None
        }
    }

    /// The generation of the entity, or `None` for the null entity.
    pub fn generation(&self) -> (r: Option<u8>)
        ensures
            self.is_null_spec() ==> r.is_none(),
            !self.is_null_spec() ==> r == Some(self.generation_spec() as u8),
    {
        if self.0 < u32::MAX {
            let id = self.0;
            assert(((id >> 24u32) & 0xffu32) == id / 0x100_0000u32) by (bit_vector);
            Some(((self.0 >> ENTITY_INDEX_BITS) & ENTITY_GENERATION_MASK) as u8)
        } else {
            None
        }
    }

    /// The index bits of the id, also for the null entity.
    pub fn index_unchecked(&self) -> (r: usize)
        ensures
            r == self.index_spec(),
            r < index_span(),
    {
        let id = self.0;
        assert((id & 0xff_ffffu32) == id % 0x100_0000u32) by (bit_vector);
        (self.0 & ENTITY_INDEX_MASK) as usize
    }
}

impl Default for Entity {
    fn default() -> (r: Entity)
        ensures
            r.is_null_spec(),
    {
        Entity::null()
    }
}

/// Something that stands for an entity.
pub trait AsEntity {
    /// The entity it stands for.
    spec fn entity_spec(&self) -> Entity;

    fn entity(&self) -> (r: Entity)
        ensures
            r == self.entity_spec(),
    ;
}

impl AsEntity for Entity {
    open spec fn entity_spec(&self) -> Entity {
        *self
    }

    fn entity(&self) -> (r: Entity) {
        *self
    }
}

/// Why an entity could not be created or destroyed.
#[derive(Clone, Copy, Debug, PartialEq, Eq, Structural)]
pub enum AllocationError {
    /// Every index below the reserved null index is in use.
    IndexSpaceExhausted,
    /// The index has been reused as often as its 8-bit generation can count.
    GenerationOverflow,
}

/// Issues, destroys and reuses entities, and tells whether an entity is alive.
pub struct EntityManager {
    generation: Vec<u8>,
    free_list: VecDeque<u32>,
}

impl EntityManager {
    /// The current generation of each index handed out so far.
    pub closed spec fn gens(&self) -> Seq<u8> {
        self.generation@
    }

    /// The freed indices, oldest first.
    pub closed spec fn free(&self) -> Seq<u32> {
        self.free_list@
    }

    pub open spec fn wf(&self) -> bool {
        &&& self.gens().len() <= ENTITY_MAX
        &&& self.free().no_duplicates()
        &&& forall|i: int| 0 <= i < self.free().len() ==> (#[trigger] self.free()[i]) < self.gens().len()
    }

    /// The generation stored for the entity's index matches the entity's own.
    pub open spec fn is_alive_spec(&self, e: Entity) -> bool {
        &&& !e.is_null_spec()
        &&& e.index_spec() < self.gens().len()
        &&& self.gens()[e.index_spec() as int] as nat == e.generation_spec()
    }

    /// The entity was handed out by `create_entity` and has not been destroyed since.
    pub open spec fn in_use(&self, e: Entity) -> bool {
        &&& self.is_alive_spec(e)
        &&& !self.free().contains(e.index_spec() as u32)
    }

    /// The entity's index has moved past the entity's generation: it was destroyed.
    pub open spec fn is_past(&self, e: Entity) -> bool {
        &&& !e.is_null_spec()
        &&& e.index_spec() < self.gens().len()
        &&& self.gens()[e.index_spec() as int] as nat > e.generation_spec()
    }

    /// What every call of `create_entity` and `destroy_entity` keeps: no index is
    /// forgotten and no generation goes back.
    pub open spec fn evolves_to(&self, later: &EntityManager) -> bool {
        &&& self.gens().len() <= later.gens().len()
        &&& forall|i: int| 0 <= i < self.gens().len() ==> self.gens()[i] <= #[trigger] later.gens()[i]
    }

    pub fn new() -> (r: EntityManager)
        ensures
            r.wf(),
            r.gens() == Seq::<u8>::empty(),
            r.free() == Seq::<u32>::empty(),
    {
        EntityManager { generation: Vec::new(), free_list: VecDeque::with_capacity(MINIMUM_FREE_INDICES) }
    }

    /// Creates an entity. Once more than `MINIMUM_FREE_INDICES` freed indices wait,
    /// the oldest one is reused at its current generation; otherwise a new index
    /// is appended at generation 0.
    pub fn create_entity(&mut self) -> (r: Result<Entity, AllocationError>)
        requires
            old(self).wf(),
        ensures
            final(self).wf(),
            old(self).evolves_to(&*final(self)),
            old(self).free().len() > MINIMUM_FREE_INDICES ==> {
                let idx = old(self).free()[0];
                &&& r == Ok::<Entity, AllocationError>(
                    Entity::spec_new(idx as nat, old(self).gens()[idx as int] as nat),
                )
                &&& final(self).gens() == old(self).gens()
                &&& final(self).free() == old(self).free().drop_first()
            },
            old(self).free().len() <= MINIMUM_FREE_INDICES && old(self).gens().len() < ENTITY_MAX ==> {
                &&& r == Ok::<Entity, AllocationError>(Entity::spec_new(old(self).gens().len(), 0))
                &&& final(self).gens() == old(self).gens().push(0)
                &&& final(self).free() == old(self).free()
            },
            old(self).free().len() <= MINIMUM_FREE_INDICES && old(self).gens().len() >= ENTITY_MAX ==> {
                &&& r == Err::<Entity, AllocationError>(AllocationError::IndexSpaceExhausted)
                &&& final(self).gens() == old(self).gens()
                &&& final(self).free() == old(self).free()
            },
            r matches Ok(e) ==> {
                &&& !old(self).in_use(e)
                &&& final(self).in_use(e)
                &&& forall|x: Entity| #[trigger] final(self).in_use(x) <==> (old(self).in_use(x) || x == e)
            },
    {
        if self.free_list.len() > MINIMUM_FREE_INDICES {
            let ghost old_free = self.free();
            let idx = match self.free_list.pop_front() {
                Some(i) => i,
                None => 0,
            };
            assert(old_free[0] == idx);
            assert(idx < self.generation.len());
            let g = self.generation[idx as usize];
            let e = Entity::new(idx, g as u32);
            proof {
                assert(self.free() =~= old_free.drop_first());
                assert(!self.free().contains(idx)) by {
                    if self.free().contains(idx) {
                        let j = choose|j: int| 0 <= j < self.free().len() && self.free()[j] == idx;
                        assert(old_free[j + 1] == old_free[0]);
                    }
                }
                assert forall|x: Entity| #[trigger] self.in_use(x) <==> (old(self).in_use(x) || x == e) by {
                    if x.index_spec() == idx as nat && self.is_alive_spec(x) {
                        Entity::lemma_encoding_injective(x, e);
                    }
                    if old(self).in_use(x) {
                        if self.free().contains(x.index_spec() as u32) {
                            let j = choose|j: int| 0 <= j < self.free().len() && self.free()[j] == x.index_spec() as u32;
                            assert(old_free[j + 1] == x.index_spec() as u32);
                        }
                    }
                    if self.in_use(x) && x != e {
                        if old_free.contains(x.index_spec() as u32) {
                            let j = choose|j: int| 0 <= j < old_free.len() && old_free[j] == x.index_spec() as u32;
                            if j == 0 {
                                Entity::lemma_encoding_injective(x, e);
                            } else {
                                assert(self.free()[j - 1] == x.index_spec() as u32);
                            }
                        }
                    }
                }
            }
            Ok(e)
        } else {
            let len = self.generation.len();
            if len >= ENTITY_MAX as usize {
                return Err(AllocationError::IndexSpaceExhausted);
            }
            self.generation.push(0);
            let e = Entity::new(len as u32, 0);
            proof {
                assert forall|x: Entity| #[trigger] self.in_use(x) <==> (old(self).in_use(x) || x == e) by {
                    if x.index_spec() == len as nat && self.is_alive_spec(x) {
                        Entity::lemma_encoding_injective(x, e);
                    }
                    if self.in_use(x) && x.index_spec() < len {
                        assert(self.gens()[x.index_spec() as int] == old(self).gens()[x.index_spec() as int]);
                    }
                }
                assert(!old(self).free().contains(len as u32));
            }
            Ok(e)
        }
    }

    /// True iff the entity's generation matches the one stored for its index;
    /// false for the null entity and for indices never handed out.
    pub fn is_alive(&self, entity: Entity) -> (r: bool)
        ensures
            r == self.is_alive_spec(entity),
    {
        if entity.is_null() {
            return false;
        }
        let idx = entity.index_unchecked();
        if idx >= self.generation.len() {
            return false;
        }
        let g = match entity.generation() {
            Some(g) => g,
            None => 0,
        };
        self.generation[idx] == g
    }

    /// Whether `create_entity` would succeed: a freed index can be reused, or a
    /// new index is left.
    pub open spec fn can_create_spec(&self) -> bool {
        self.free().len() > MINIMUM_FREE_INDICES || self.gens().len() < ENTITY_MAX
    }

    /// Whether `create_entity` would succeed.
    pub fn can_create(&self) -> (r: bool)
        ensures
            r == self.can_create_spec(),
    {
        self.free_list.len() > MINIMUM_FREE_INDICES || self.generation.len() < ENTITY_MAX as usize
    }

    /// True iff the entity was handed out by `create_entity` and has not been
    /// destroyed since: it is alive and its index does not wait in the free queue.
    pub fn is_in_use(&self, entity: Entity) -> (r: bool)
        requires
            self.wf(),
        ensures
            r == self.in_use(entity),
    {
        if !self.is_alive(entity) {
            return false;
        }
        let idx = entity.index_unchecked() as u32;
        let mut i: usize = 0;
        while i < self.free_list.len()
            invariant
                0 <= i <= self.free().len(),
                idx == entity.index_spec(),
                forall|j: int| 0 <= j < i ==> self.free()[j] != idx,
            decreases self.free().len() - i,
        {
            if self.free_list[i] == idx {
                assert(self.free()[i as int] == idx);
                return false;
            }
            i = i + 1;
        }
        proof {
            if self.free().contains(idx) {
                let j = choose|j: int| 0 <= j < self.free().len() && self.free()[j] == idx;
                assert(self.free()[j] != idx);
            }
        }
        true
    }

    /// Destroys an entity: its index moves to the next generation and joins the
    /// free queue. Fails, changing nothing, where the generation is already 255.
    pub fn destroy_entity(&mut self, entity: Entity) -> (r: Result<(), AllocationError>)
        requires
            old(self).wf(),
            old(self).in_use(entity),
        ensures
            final(self).wf(),
            old(self).evolves_to(&*final(self)),
            old(self).gens()[entity.index_spec() as int] == u8::MAX
                <==> r == Err::<(), AllocationError>(AllocationError::GenerationOverflow),
            (r is Ok) == (old(self).gens()[entity.index_spec() as int] != u8::MAX),
            r is Err ==> final(self).gens() == old(self).gens() && final(self).free() == old(self).free(),
            r is Ok ==> {
                &&& final(self).gens() == old(self).gens().update(
                    entity.index_spec() as int,
                    (old(self).gens()[entity.index_spec() as int] + 1) as u8,
                )
                &&& final(self).free() == old(self).free().push(entity.index_spec() as u32)
                &&& !final(self).is_alive_spec(entity)
                &&& final(self).is_past(entity)
                &&& forall|x: Entity| #[trigger] final(self).in_use(x) <==> (old(self).in_use(x) && x != entity)
            },
    {
        let idx = entity.index_unchecked();
        let g = self.generation[idx];
        if g == u8::MAX {
            return Err(AllocationError::GenerationOverflow);
        }
        self.generation.set(idx, g + 1);
        self.free_list.push_back(idx as u32);
        proof {
            let of = old(self).free();
            assert(self.free().no_duplicates()) by {
                assert forall|i: int, j: int| 0 <= i < j < self.free().len() implies self.free()[i] != self.free()[j] by {
                    if j == of.len() {
                        assert(of.contains(of[i]));
                    }
                }
            }
            assert forall|x: Entity| #[trigger] self.in_use(x) <==> (old(self).in_use(x) && x != entity) by {
                if x.index_spec() == idx as nat {
                    assert(self.free()[of.len() as int] == idx as u32);
                    if old(self).in_use(x) {
                        Entity::lemma_encoding_injective(x, entity);
                    }
                } else {
                    if self.free().contains(x.index_spec() as u32) {
                        let j = choose|j: int| 0 <= j < self.free().len() && self.free()[j] == x.index_spec() as u32;
                        assert(j < of.len());
                        assert(of[j] == x.index_spec() as u32);
                    }
                    if of.contains(x.index_spec() as u32) {
                        let j = choose|j: int| 0 <= j < of.len() && of[j] == x.index_spec() as u32;
                        assert(self.free()[j] == x.index_spec() as u32);
                    }
                }
            }
        }
        Ok(())
    }
}

/// Any two alive entities with the same index are equal: an index is never shared
/// by two alive entities at once.
pub proof fn lemma_alive_entities_distinct(m: &EntityManager, a: Entity, b: Entity)
    requires
        m.is_alive_spec(a),
        m.is_alive_spec(b),
        a != b,
    ensures
        a.index_spec() != b.index_spec(),
{
    if a.index_spec() == b.index_spec() {
        Entity::lemma_encoding_injective(a, b);
    }
}

/// A destroyed entity stays dead: along any run of managers, each obtained from
/// the one before by `create_entity` or `destroy_entity`, an entity whose index
/// has moved past its generation is never alive again, even once the index is
/// reissued.
pub proof fn lemma_destroyed_stays_dead(run: Seq<EntityManager>, e: Entity)
    requires
        run.len() > 0,
        run[0].is_past(e),
        forall|i: int| 0 <= i < run.len() - 1 ==> (#[trigger] run[i]).evolves_to(&run[i + 1]),
    ensures
        forall|i: int| 0 <= i < run.len() ==> (#[trigger] run[i]).is_past(e) && !run[i].is_alive_spec(e),
    decreases run.len(),
{
    if run.len() > 1 {
        let rest = run.drop_first();
        assert(run[0].evolves_to(&run[1]));
        assert(rest[0] == run[1]);
        assert forall|i: int| 0 <= i < rest.len() - 1 implies (#[trigger] rest[i]).evolves_to(&rest[i + 1]) by {
            assert(rest[i] == run[i + 1]);
            assert(rest[i + 1] == run[i + 2]);
        }
        lemma_destroyed_stays_dead(rest, e);
        assert forall|i: int| 0 <= i < run.len() implies (#[trigger] run[i]).is_past(e) && !run[i].is_alive_spec(e) by {
            if i > 0 {
                assert(run[i] == rest[i - 1]);
            }
        }
    }
}

} // verus!
