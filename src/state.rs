use crate::entity::{AllocationError, Entity, EntityManager, MINIMUM_FREE_INDICES};
use crate::hierarchy::{descends, Hierarchy};
use crate::style::{Scalar, Storage, Style};
use vstd::prelude::*;

verus! {

/// Which sides of an entity's resolved box moved or resized in the last layout.
#[derive(Clone, Copy, Debug, PartialEq, Eq, Structural)]
pub struct GeometryChanged {
    pub posx: bool,
    pub posy: bool,
    pub width: bool,
    pub height: bool,
}

impl GeometryChanged {
    pub open spec fn none() -> GeometryChanged {
        GeometryChanged { posx: false, posy: false, width: false, height: false }
    }

    pub open spec fn any_spec(self) -> bool {
        self.posx || self.posy || self.width || self.height
    }

    /// Returns true if some side changed.
    pub fn any(&self) -> (r: bool)
        ensures
            r == self.any_spec(),
    {
        self.posx || self.posy || self.width || self.height
    }

    /// The sides that differ between two boxes.
    pub open spec fn between(prev: LayoutBox, next: LayoutBox) -> GeometryChanged {
        GeometryChanged {
            posx: prev.posx != next.posx,
            posy: prev.posy != next.posy,
            width: prev.width != next.width,
            height: prev.height != next.height,
        }
    }

    /// The sides changed in either record.
    pub open spec fn union(self, other: GeometryChanged) -> GeometryChanged {
        GeometryChanged {
            posx: self.posx || other.posx,
            posy: self.posy || other.posy,
            width: self.width || other.width,
            height: self.height || other.height,
        }
    }
}

impl Default for GeometryChanged {
    fn default() -> (r: GeometryChanged)
        ensures
            r == GeometryChanged::none(),
    {
        GeometryChanged { posx: false, posy: false, width: false, height: false }
    }
}

/// A box resolved by the layout solver: position and size.
#[derive(Clone, Copy, Debug, PartialEq, Eq, Structural)]
pub struct LayoutBox {
    pub posx: Scalar,
    pub posy: Scalar,
    pub width: Scalar,
    pub height: Scalar,
}

impl LayoutBox {
    /// The box of an entity that layout has not placed yet.
    pub open spec fn zero() -> LayoutBox {
        LayoutBox { posx: Scalar(0), posy: Scalar(0), width: Scalar(0), height: Scalar(0) }
    }
}

/// Which entities an event reaches, starting from its target.
#[derive(Clone, Copy, Debug, PartialEq, Eq, Structural)]
pub enum Propagation {
    /// The target alone.
    Direct,
    /// The target and its ancestors.
    Up,
    /// The target and its descendants.
    Down,
    /// The ancestors down to the target, then back up.
    DownUp,
    /// Every entity.
    All,
}

/// The signals that the window reacts to.
#[derive(Clone, Copy, Debug, PartialEq, Eq, Structural)]
pub enum WindowEvent {
    WindowClose,
    Restyle,
    Relayout,
    Redraw,
    GeometryChanged(GeometryChanged),
}

/// A message on its way to a target entity.
#[derive(Clone, Copy, Debug, PartialEq, Eq, Structural)]
pub struct Event {
    pub message: WindowEvent,
    pub target: Entity,
    pub origin: Entity,
    pub propagation: Propagation,
}

impl Event {
    /// An event without a target yet, propagating up.
    pub fn new(message: WindowEvent) -> (r: Event)
        ensures
            r == (Event { message, target: Entity(u32::MAX), origin: Entity(u32::MAX), propagation: Propagation::Up }),
    {
        Event { message, target: Entity::null(), origin: Entity::null(), propagation: Propagation::Up }
    }

    /// The same event, aimed at `entity`.
    pub fn target(self, entity: Entity) -> (r: Event)
        ensures
            r == (Event { target: entity, ..self }),
    {
        Event { target: entity, ..self }
    }

    /// The same event, with another propagation.
    pub fn propagate(self, propagation: Propagation) -> (r: Event)
        ensures
            r == (Event { propagation, ..self }),
    {
        Event { propagation, ..self }
    }
}

/// The geometry that layout resolved for each entity, and the sides that
/// changed since the change records were last taken.
pub struct CachedData {
    pub geometry: Storage<LayoutBox>,
    pub geometry_changed: Storage<GeometryChanged>,
}

impl CachedData {
    pub fn new() -> (r: CachedData)
        ensures
            r.geometry@ == Map::<u32, LayoutBox>::empty(),
            r.geometry_changed@ == Map::<u32, GeometryChanged>::empty(),
    {
        CachedData { geometry: Storage::new(), geometry_changed: Storage::new() }
    }
}

/// A pass over the hierarchy that the dispatcher asks for, run by the owner of
/// the style engine, the layout solver and the renderer.
#[derive(Clone, Copy, Debug, PartialEq, Eq, Structural)]
pub enum Pass {
    Styles,
    ZOrdering,
    Transform,
    Visibility,
    Layout,
    Hover,
}

/// The change records that remain once `nodes` have been reported, in order:
/// each reported record is cleared.
pub open spec fn cleared(bits: Map<u32, GeometryChanged>, nodes: Seq<Entity>) -> Map<u32, GeometryChanged>
    decreases nodes.len(),
{
    if nodes.len() == 0 {
        bits
    } else {
        cleared(bits.insert(nodes[0].0, GeometryChanged::none()), nodes.drop_first())
    }
}

/// The notifications that reporting the change records of `nodes`, in order,
/// emits: one for each entity with a changed side, aimed at it and propagating
/// down to its descendants.
pub open spec fn notifications(bits: Map<u32, GeometryChanged>, nodes: Seq<Entity>) -> Seq<Event>
    decreases nodes.len(),
{
    if nodes.len() == 0 {
        Seq::empty()
    } else {
        let n = nodes[0];
        let g = if bits.contains_key(n.0) { bits[n.0] } else { GeometryChanged::none() };
        let rest = notifications(bits.insert(n.0, GeometryChanged::none()), nodes.drop_first());
        if g.any_spec() {
            seq![Event { message: WindowEvent::GeometryChanged(g), target: n, origin: Entity(u32::MAX), propagation: Propagation::Down }] + rest
        } else {
            rest
        }
    }
}

/// Everything the core keeps: the entities, their tree, their properties and
/// resolved geometry, the three invalidation flags and the pending events.
pub struct State {
    pub entity_manager: EntityManager,
    pub hierarchy: Hierarchy,
    pub style: Style,
    pub data: CachedData,
    pub needs_restyle: bool,
    pub needs_relayout: bool,
    pub needs_redraw: bool,
    pub event_queue: Vec<Event>,
}

/// Why the state refused to add or remove an entity. A refused call changes
/// nothing.
#[derive(Clone, Copy, Debug, PartialEq, Eq, Structural)]
pub enum StateError {
    /// The entity, or the parent, is not in use, or has no slot in the hierarchy.
    NotAlive,
    /// The root cannot be removed.
    Root,
    /// The entity still has children, to be removed first.
    HasChildren,
    /// The allocator refused.
    Allocation(AllocationError),
}

impl State {
    /// The slot's index was handed out and is not waiting for reuse.
    pub open spec fn slot_in_use(&self, i: int) -> bool {
        &&& 0 <= i < self.entity_manager.gens().len()
        &&& !self.entity_manager.free().contains(i as u32)
    }

    /// The slot has neither a parent nor children.
    pub open spec fn slot_clear(&self, i: int) -> bool {
        &&& self.hierarchy.parent_of(i) is None
        &&& self.hierarchy.children(i).len() == 0
    }

    /// The allocator and the hierarchy are well formed, the root is in use, and
    /// no slot outside use takes part in the tree.
    pub open spec fn wf(&self) -> bool {
        &&& self.entity_manager.wf()
        &&& self.hierarchy.wf()
        &&& self.entity_manager.in_use(Entity(0))
        &&& forall|i: int| 0 <= i < self.hierarchy.len() && !self.slot_in_use(i) ==> #[trigger] self.slot_clear(i)
    }

    /// The entity that the next `create_entity` hands out.
    pub open spec fn next_entity(&self) -> Entity {
        let free = self.entity_manager.free();
        let gens = self.entity_manager.gens();
        if free.len() > MINIMUM_FREE_INDICES {
            Entity::spec_new(free[0] as nat, gens[free[0] as int] as nat)
        } else {
            Entity::spec_new(gens.len(), 0)
        }
    }

    /// Why `add(parent)` is refused, if it is.
    pub open spec fn add_check(&self, parent: Entity) -> Option<StateError> {
        if !self.entity_manager.in_use(parent) || !self.hierarchy.holds(parent) {
            Some(StateError::NotAlive)
        } else if self.entity_manager.free().len() <= MINIMUM_FREE_INDICES
            && self.entity_manager.gens().len() >= crate::entity::ENTITY_MAX {
            Some(StateError::Allocation(AllocationError::IndexSpaceExhausted))
        } else {
            None
        }
    }

    /// Why `remove(entity)` is refused, if it is.
    pub open spec fn remove_check(&self, entity: Entity) -> Option<StateError> {
        if !self.entity_manager.in_use(entity) {
            Some(StateError::NotAlive)
        } else if entity.index_spec() == 0 {
            Some(StateError::Root)
        } else if self.hierarchy.holds(entity) && self.hierarchy.children(Hierarchy::slot(entity)).len() > 0 {
            Some(StateError::HasChildren)
        } else if self.entity_manager.gens()[entity.index_spec() as int] == u8::MAX {
            Some(StateError::Allocation(AllocationError::GenerationOverflow))
        } else {
            None
        }
    }

    /// Creates an entity and adds it as the last child of `parent`; raises all
    /// three invalidation flags.
    pub fn add(&mut self, parent: Entity) -> (r: Result<Entity, StateError>)
        requires
            old(self).wf(),
        ensures
            final(self).wf(),
            match old(self).add_check(parent) {
                Some(err) => r == Err::<Entity, StateError>(err) && *final(self) == *old(self),
                None => {
                    let e = old(self).next_entity();
                    &&& r == Ok::<Entity, StateError>(e)
                    &&& !old(self).entity_manager.in_use(e)
                    &&& forall|x: Entity| #[trigger] final(self).entity_manager.in_use(x)
                        <==> (old(self).entity_manager.in_use(x) || x == e)
                    &&& old(self).entity_manager.evolves_to(&final(self).entity_manager)
                    &&& final(self).hierarchy.after_append(&old(self).hierarchy, e, parent)
                    &&& final(self).hierarchy.changed_spec()
                    &&& final(self).needs_restyle && final(self).needs_relayout && final(self).needs_redraw
                    &&& final(self).style == old(self).style
                    &&& final(self).data == old(self).data
                    &&& final(self).event_queue == old(self).event_queue
                },
            },
    {
        if !self.entity_manager.is_in_use(parent) || self.hierarchy.get_num_children(parent).is_none() {
            return Err(StateError::NotAlive);
        }
        if !self.entity_manager.can_create() {
            return Err(StateError::Allocation(AllocationError::IndexSpaceExhausted));
        }
        let ghost o = *self;
        let e = match self.entity_manager.create_entity() {
            Ok(e) => e,
            Err(err) => {
                return Err(StateError::Allocation(err));
            },
        };
        proof {
            let free = o.entity_manager.free();
            let gens = o.entity_manager.gens();
            assert(o.slot_in_use(0));
            if free.len() > MINIMUM_FREE_INDICES {
                assert(free.contains(free[0]));
                Entity::lemma_decode(free[0] as nat, gens[free[0] as int] as nat);
            } else {
                Entity::lemma_decode(gens.len(), 0);
            }
            let x = Hierarchy::slot(e);
            assert(!o.slot_in_use(x));
            assert(o.slot_in_use(Hierarchy::slot(parent)));
            if o.hierarchy.holds(e) {
                assert(o.slot_clear(x));
                if descends(o.hierarchy.parents(), Hierarchy::slot(parent), x) {
                    o.hierarchy.lemma_leaf_subtree(Hierarchy::slot(parent), x);
                }
            }
        }
        let added = self.hierarchy.add(e, parent);
        assert(added is Ok);
        self.needs_restyle = true;
        self.needs_relayout = true;
        self.needs_redraw = true;
        proof {
            let x = Hierarchy::slot(e);
            let p = Hierarchy::slot(parent);
            assert(o.slot_in_use(p));
            assert forall|i: int| 0 <= i < self.hierarchy.len() && !self.slot_in_use(i) implies #[trigger] self.slot_clear(i) by {
                assert(i != x) by {
                    assert(self.entity_manager.in_use(e));
                }
                assert(!o.slot_in_use(i)) by {
                    if o.entity_manager.free().len() > MINIMUM_FREE_INDICES {
                        if o.entity_manager.free().contains(i as u32) && 0 <= i < o.entity_manager.gens().len() {
                            let j = choose|j: int| 0 <= j < o.entity_manager.free().len() && o.entity_manager.free()[j] == i as u32;
                            assert(j != 0);
                            assert(self.entity_manager.free()[j - 1] == i as u32);
                        }
                    }
                }
                if i < o.hierarchy.len() {
                    assert(o.slot_clear(i));
                    assert(i != p);
                }
            }
        }
        Ok(e)
    }

    /// Removes an entity that has no children from the hierarchy and destroys
    /// it; raises all three invalidation flags.
    pub fn remove(&mut self, entity: Entity) -> (r: Result<(), StateError>)
        requires
            old(self).wf(),
        ensures
            final(self).wf(),
            match old(self).remove_check(entity) {
                Some(err) => r == Err::<(), StateError>(err) && *final(self) == *old(self),
                None => {
                    &&& r is Ok
                    &&& forall|x: Entity| #[trigger] final(self).entity_manager.in_use(x)
                        <==> (old(self).entity_manager.in_use(x) && x != entity)
                    &&& final(self).entity_manager.is_past(entity)
                    &&& old(self).entity_manager.evolves_to(&final(self).entity_manager)
                    &&& (if old(self).hierarchy.holds(entity) {
                        final(self).hierarchy.after_remove(&old(self).hierarchy, Hierarchy::slot(entity))
                            && final(self).hierarchy.changed_spec()
                    } else {
                        final(self).hierarchy == old(self).hierarchy
                    })
                    &&& final(self).needs_restyle && final(self).needs_relayout && final(self).needs_redraw
                    &&& final(self).style == old(self).style
                    &&& final(self).data == old(self).data
                    &&& final(self).event_queue == old(self).event_queue
                },
            },
    {
        if !self.entity_manager.is_in_use(entity) {
            return Err(StateError::NotAlive);
        }
        if entity.index_unchecked() == 0 {
            return Err(StateError::Root);
        }
        if self.hierarchy.has_children(entity) {
            return Err(StateError::HasChildren);
        }
        if entity.generation() == Some(u8::MAX) {
            return Err(StateError::Allocation(AllocationError::GenerationOverflow));
        }
        let ghost o = *self;
        let held = self.hierarchy.get_num_children(entity).is_some();
        if held {
            let detached = self.hierarchy.remove(entity);
            assert(detached is Ok);
        }
        let ghost h1 = self.hierarchy;
        proof {
            let x = Hierarchy::slot(entity);
            assert(o.entity_manager.gens()[x] as nat == entity.generation_spec());
            assert(o.entity_manager.gens()[x] != u8::MAX);
            assert(self.entity_manager == o.entity_manager);
        }
        let destroyed = self.entity_manager.destroy_entity(entity);
        assert(destroyed is Ok);
        self.needs_restyle = true;
        self.needs_relayout = true;
        self.needs_redraw = true;
        proof {
            let x = Hierarchy::slot(entity);
            assert(self.entity_manager.in_use(Entity(0)));
            assert forall|i: int| 0 <= i < self.hierarchy.len() && !self.slot_in_use(i) implies #[trigger] self.slot_clear(i) by {
                assert(self.hierarchy == h1);
                if i == x {
                    assert(held);
                    assert(h1.after_remove(&o.hierarchy, x));
                    assert(h1.parents()[x] is None);
                    assert(h1.parent_of(x) == h1.parents()[x]);
                    assert(h1.children(x) == o.hierarchy.take_out(x, x));
                    assert(o.slot_in_use(x));
                    if let Some(q) = o.hierarchy.parent_of(x) {
                        o.hierarchy.lemma_parent_placed(x);
                    }
                } else {
                    assert(!o.slot_in_use(i)) by {
                        if o.entity_manager.free().contains(i as u32) {
                            let j = choose|j: int| 0 <= j < o.entity_manager.free().len() && o.entity_manager.free()[j] == i as u32;
                            assert(self.entity_manager.free()[j] == i as u32);
                        }
                    }
                    assert(o.slot_clear(i));
                    if held {
                        assert(self.hierarchy.parents()[i] == o.hierarchy.parents()[i]);
                        assert(self.hierarchy.children(i) == o.hierarchy.take_out(x, i));
                        if let Some(q) = o.hierarchy.parent_of(x) {
                            if Hierarchy::slot(q) == i {
                                o.hierarchy.lemma_parent_placed(x);
                            }
                        }
                    }
                }
            }
        }
        Ok(())
    }

    /// A state that holds the root alone, with every flag down.
    pub fn new() -> (r: State)
        ensures
            r.wf(),
            r.entity_manager.in_use(Entity(0)),
            r.entity_manager.gens().len() == 1,
            r.hierarchy.len() == 1,
            r.hierarchy.children(0) == Seq::<Entity>::empty(),
            !r.needs_restyle && !r.needs_relayout && !r.needs_redraw,
            r.event_queue@ == Seq::<Event>::empty(),
    {
        let mut entity_manager = EntityManager::new();
        let root = entity_manager.create_entity();
        proof {
            Entity::lemma_decode(0, 0);
            assert(Entity::spec_new(0, 0) == Entity(0));
        }
        let r = State {
            entity_manager,
            hierarchy: Hierarchy::new(),
            style: Style::new(),
            data: CachedData::new(),
            needs_restyle: false,
            needs_relayout: false,
            needs_redraw: false,
            event_queue: Vec::new(),
        };
        proof {
            assert(r.slot_in_use(0));
            assert forall|i: int| 0 <= i < r.hierarchy.len() && !r.slot_in_use(i) implies #[trigger] r.slot_clear(i) by {}
        }
        r
    }

    /// Queues an event.
    pub fn insert_event(&mut self, event: Event)
        ensures
            *final(self) == (State { event_queue: final(self).event_queue, ..*old(self) }),
            final(self).event_queue@ == old(self).event_queue@.push(event),
    {
        self.event_queue.push(event);
    }

    /// The box layout last resolved for an entity (all zero before the first).
    pub open spec fn geometry_of(&self, entity: Entity) -> LayoutBox {
        self.data.geometry.value_or(entity.0, LayoutBox::zero())
    }

    /// The sides of an entity's box that changed since they were last reported.
    pub open spec fn changes_of(&self, entity: Entity) -> GeometryChanged {
        self.data.geometry_changed.value_or(entity.0, GeometryChanged::none())
    }

    /// Stores the box that layout resolved for an entity and records which of
    /// its sides differ from the previous box.
    pub fn set_geometry(&mut self, entity: Entity, next: LayoutBox)
        ensures
            final(self).data.geometry@ == old(self).data.geometry@.insert(entity.0, next),
            final(self).data.geometry_changed@ == old(self).data.geometry_changed@.insert(
                entity.0,
                old(self).changes_of(entity).union(GeometryChanged::between(old(self).geometry_of(entity), next)),
            ),
            *final(self) == (State { data: final(self).data, ..*old(self) }),
    {
        let prev = match self.data.geometry.get(entity) {
            Some(b) => *b,
            None => LayoutBox { posx: Scalar(0), posy: Scalar(0), width: Scalar(0), height: Scalar(0) },
        };
        let bits = match self.data.geometry_changed.get(entity) {
            Some(g) => *g,
            None => GeometryChanged::default(),
        };
        let merged = GeometryChanged {
            posx: bits.posx || prev.posx != next.posx,
            posy: bits.posy || prev.posy != next.posy,
            width: bits.width || prev.width != next.width,
            height: bits.height || prev.height != next.height,
        };
        self.data.geometry.insert(entity, next);
        self.data.geometry_changed.insert(entity, merged);
    }

    /// Reports the geometry changes of `nodes`, in order: queues a notification
    /// for each entity with a changed side, aimed at it and propagating down,
    /// and clears each entity's change record.
    pub fn report_geometry_changes(&mut self, nodes: &Vec<Entity>)
        ensures
            final(self).event_queue@ == old(self).event_queue@ + notifications(old(self).data.geometry_changed@, nodes@),
            final(self).data.geometry_changed@ == cleared(old(self).data.geometry_changed@, nodes@),
            *final(self) == (State {
                event_queue: final(self).event_queue,
                data: CachedData { geometry_changed: final(self).data.geometry_changed, ..old(self).data },
                ..*old(self)
            }),
    {
        let ghost bits0 = self.data.geometry_changed@;
        let ghost queue0 = self.event_queue@;
        let mut i: usize = 0;
        assert(nodes@.subrange(0, nodes@.len() as int) =~= nodes@);
        while i < nodes.len()
            invariant
                0 <= i <= nodes@.len(),
                queue0 + notifications(bits0, nodes@) == self.event_queue@ + notifications(
                    self.data.geometry_changed@,
                    nodes@.subrange(i as int, nodes@.len() as int),
                ),
                cleared(bits0, nodes@) == cleared(self.data.geometry_changed@, nodes@.subrange(i as int, nodes@.len() as int)),
                *self == (State {
                    event_queue: self.event_queue,
                    data: CachedData { geometry_changed: self.data.geometry_changed, ..old(self).data },
                    ..*old(self)
                }),
            decreases nodes.len() - i,
        {
            let node = nodes[i];
            let ghost rest = nodes@.subrange(i as int, nodes@.len() as int);
            let ghost bits = self.data.geometry_changed@;
            let g = match self.data.geometry_changed.get(node) {
                Some(g) => *g,
                None => GeometryChanged::default(),
            };
            let ghost q = self.event_queue@;
            if g.any() {
                let event = Event::new(WindowEvent::GeometryChanged(g)).target(node).propagate(Propagation::Down);
                self.event_queue.push(event);
            }
            self.data.geometry_changed.insert(node, GeometryChanged::default());
            i = i + 1;
            proof {
                assert(rest[0] == node);
                assert(rest.drop_first() =~= nodes@.subrange(i as int, nodes@.len() as int));
                if g.any_spec() {
                    let ev = seq![Event { message: WindowEvent::GeometryChanged(g), target: node, origin: Entity(u32::MAX), propagation: Propagation::Down }];
                    assert(self.event_queue@ == q + ev);
                    assert(notifications(bits, rest) == ev + notifications(self.data.geometry_changed@, rest.drop_first()));
                    assert((q + ev) + notifications(self.data.geometry_changed@, rest.drop_first())
                        =~= q + (ev + notifications(self.data.geometry_changed@, rest.drop_first())));
                }
            }
        }
        proof {
            assert(nodes@.subrange(i as int, nodes@.len() as int) =~= Seq::<Entity>::empty());
            assert(self.event_queue@ + Seq::<Event>::empty() =~= self.event_queue@);
        }
    }

    /// After a layout pass: reports, for every entity in preorder, the sides of
    /// its box that changed, as `report_geometry_changes` does.
    pub fn geometry_changed(&mut self)
        requires
            old(self).hierarchy.wf(),
        ensures
            exists|nodes: Seq<Entity>| {
                &&& old(self).hierarchy.is_walk(nodes)
                &&& final(self).event_queue@ == old(self).event_queue@ + notifications(old(self).data.geometry_changed@, nodes)
                &&& final(self).data.geometry_changed@ == cleared(old(self).data.geometry_changed@, nodes)
            },
            *final(self) == (State {
                event_queue: final(self).event_queue,
                data: CachedData { geometry_changed: final(self).data.geometry_changed, ..old(self).data },
                ..*old(self)
            }),
    {
        let nodes = self.hierarchy.preorder();
        self.report_geometry_changes(&nodes);
    }

    /// Whether the frame must be drawn; clears the redraw flag, since the caller
    /// draws it now.
    pub fn take_redraw(&mut self) -> (r: bool)
        ensures
            r == old(self).needs_redraw,
            *final(self) == (State { needs_redraw: false, ..*old(self) }),
    {
        let r = self.needs_redraw;
        self.needs_redraw = false;
        r
    }
}

/// The widget that stands for the window, the root entity; it turns the
/// restyle, relayout and redraw signals into the passes to run.
#[derive(Clone, Copy, Debug, PartialEq, Eq, Structural)]
pub struct WindowWidget {}

impl WindowWidget {
    pub fn new() -> (r: WindowWidget)
        ensures
            r == (WindowWidget {}),
    {
        WindowWidget {}
    }

    /// The passes that a window event calls for, in the order they must run,
    /// and the flags it settles: styling clears `needs_restyle`; layout raises
    /// `needs_redraw` and clears `needs_relayout`; a redraw request raises
    /// `needs_redraw`.
    pub fn on_event(&mut self, state: &mut State, entity: Entity, event: &Event) -> (r: Vec<Pass>)
        ensures
            *final(self) == *old(self),
            match event.message {
                WindowEvent::Restyle => {
                    &&& r@ == seq![Pass::Styles]
                    &&& *final(state) == (State { needs_restyle: false, ..*old(state) })
                },
                WindowEvent::Relayout => {
                    &&& r@ == seq![Pass::ZOrdering, Pass::Transform, Pass::Visibility, Pass::Layout, Pass::Hover]
                    &&& *final(state) == (State { needs_relayout: false, needs_redraw: true, ..*old(state) })
                },
                WindowEvent::Redraw => {
                    &&& r@ == seq![Pass::Transform]
                    &&& *final(state) == (State { needs_redraw: true, ..*old(state) })
                },
                _ => r@ == Seq::<Pass>::empty() && *final(state) == *old(state),
            },
    {
        let mut passes: Vec<Pass> = Vec::new();
        match event.message {
            WindowEvent::Restyle => {
                passes.push(Pass::Styles);
                state.needs_restyle = false;
            },
            WindowEvent::Relayout => {
                state.needs_redraw = true;
                passes.push(Pass::ZOrdering);
                passes.push(Pass::Transform);
                passes.push(Pass::Visibility);
                passes.push(Pass::Layout);
                passes.push(Pass::Hover);
                state.needs_relayout = false;
            },
            WindowEvent::Redraw => {
                passes.push(Pass::Transform);
                state.needs_redraw = true;
            },
            _ => {},
        }
        proof {
            assert(passes@ =~= match event.message {
                WindowEvent::Restyle => seq![Pass::Styles],
                WindowEvent::Relayout => seq![Pass::ZOrdering, Pass::Transform, Pass::Visibility, Pass::Layout, Pass::Hover],
                WindowEvent::Redraw => seq![Pass::Transform],
                _ => Seq::<Pass>::empty(),
            });
        }
        passes
    }
}

} // verus!
