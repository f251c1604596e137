use crate::entity::Entity;
use std::collections::HashMap;
use vstd::prelude::*;

verus! {

broadcast use vstd::std_specs::hash::group_hash_axioms;

/// A single-precision quantity (a size, a factor, an angle) held as its IEEE 754
/// bit pattern: the store keeps such values and hands them back, it never
/// computes with them.
#[derive(Clone, Copy, Debug, PartialEq, Eq, Hash, Structural)]
pub struct Scalar(pub u32);

impl Default for Scalar {
    fn default() -> (r: Scalar)
        ensures
            r == Scalar(0),
    {
        Scalar(0)
    }
}

/// A declared length, resolved by the layout solver.
#[derive(Clone, Copy, Debug, PartialEq, Eq, Structural)]
pub enum Length {
    Auto,
    Pixels(Scalar),
    Percentage(Scalar),
    Stretch(Scalar),
}

impl Default for Length {
    fn default() -> (r: Length)
        ensures
            r == Length::Auto,
    {
        Length::Auto
    }
}

/// A colour as red, green, blue and alpha bytes.
#[derive(Clone, Copy, Debug, PartialEq, Eq, Structural)]
pub struct Color {
    pub r: u8,
    pub g: u8,
    pub b: u8,
    pub a: u8,
}

impl Default for Color {
    fn default() -> (r: Color)
        ensures
            r == (Color { r: 0, g: 0, b: 0, a: 0 }),
    {
        Color { r: 0, g: 0, b: 0, a: 0 }
    }
}

/// Whether an entity is drawn.
#[derive(Clone, Copy, Debug, PartialEq, Eq, Structural)]
pub enum Visibility {
    Visible,
    Invisible,
}

impl Default for Visibility {
    fn default() -> (r: Visibility)
        ensures
            r == Visibility::Visible,
    {
        Visibility::Visible
    }
}

/// Whether content outside an entity's box is shown.
#[derive(Clone, Copy, Debug, PartialEq, Eq, Structural)]
pub enum Overflow {
    Visible,
    Hidden,
}

impl Default for Overflow {
    fn default() -> (r: Overflow)
        ensures
            r == Overflow::Hidden,
    {
        Overflow::Hidden
    }
}

/// Whether an entity takes part in layout (`Absent`: it does not).
#[derive(Clone, Copy, Debug, PartialEq, Eq, Structural)]
pub enum Display {
    Absent,
    Flexbox,
}

impl Default for Display {
    fn default() -> (r: Display)
        ensures
            r == Display::Flexbox,
    {
        Display::Flexbox
    }
}

/// How an entity is placed relative to its parent.
#[derive(Clone, Copy, Debug, PartialEq, Eq, Structural)]
pub enum Position {
    Relative,
    Absolute,
}

impl Default for Position {
    fn default() -> (r: Position)
        ensures
            r == Position::Relative,
    {
        Position::Relative
    }
}

/// The main axis along which children are laid out.
#[derive(Clone, Copy, Debug, PartialEq, Eq, Structural)]
pub enum FlexDirection {
    Row,
    RowReverse,
    Column,
    ColumnReverse,
}

impl Default for FlexDirection {
    fn default() -> (r: FlexDirection)
        ensures
            r == FlexDirection::Column,
    {
        FlexDirection::Column
    }
}

/// How children share free space along the main axis.
#[derive(Clone, Copy, Debug, PartialEq, Eq, Structural)]
pub enum JustifyContent {
    FlexStart,
    FlexEnd,
    Center,
    SpaceBetween,
    SpaceAround,
    SpaceEvenly,
    Stretch,
}

impl Default for JustifyContent {
    fn default() -> (r: JustifyContent)
        ensures
            r == JustifyContent::FlexStart,
    {
        JustifyContent::FlexStart
    }
}

/// How lines of children share free space across the main axis.
#[derive(Clone, Copy, Debug, PartialEq, Eq, Structural)]
pub enum AlignContent {
    FlexStart,
    FlexEnd,
    Center,
    Stretch,
    SpaceBetween,
    SpaceAround,
}

impl Default for AlignContent {
    fn default() -> (r: AlignContent)
        ensures
            r == AlignContent::Stretch,
    {
        AlignContent::Stretch
    }
}

/// How children are placed across the main axis.
#[derive(Clone, Copy, Debug, PartialEq, Eq, Structural)]
pub enum AlignItems {
    FlexStart,
    FlexEnd,
    Center,
    Stretch,
    Baseline,
}

impl Default for AlignItems {
    fn default() -> (r: AlignItems)
        ensures
            r == AlignItems::Stretch,
    {
        AlignItems::Stretch
    }
}

/// How an entity is placed across its parent's main axis.
#[derive(Clone, Copy, Debug, PartialEq, Eq, Structural)]
pub enum AlignSelf {
    FlexStart,
    FlexEnd,
    Center,
    Stretch,
}

impl Default for AlignSelf {
    fn default() -> (r: AlignSelf)
        ensures
            r == AlignSelf::Stretch,
    {
        AlignSelf::Stretch
    }
}

/// Horizontal placement of text.
#[derive(Clone, Copy, Debug, PartialEq, Eq, Structural)]
pub enum Justify {
    Start,
    Center,
    End,
}

impl Default for Justify {
    fn default() -> (r: Justify)
        ensures
            r == Justify::Start,
    {
        Justify::Start
    }
}

/// Vertical placement of text.
#[derive(Clone, Copy, Debug, PartialEq, Eq, Structural)]
pub enum Align {
    Start,
    Center,
    End,
}

impl Default for Align {
    fn default() -> (r: Align)
        ensures
            r == Align::Center,
    {
        Align::Center
    }
}

/// The text of an entity and the name of its font.
pub struct Text {
    pub text: String,
    pub font: String,
}

/// The entities that keyboard focus moves to from an entity, forwards and backwards.
#[derive(Clone, Copy, Debug, PartialEq, Eq, Structural)]
pub struct FocusOrder {
    pub next: Entity,
    pub prev: Entity,
}

/// The pseudo-classes that selectors can test.
#[derive(Clone, Copy, Debug, PartialEq, Eq, Structural)]
pub struct PseudoClasses {
    pub enabled: bool,
    pub disabled: bool,
    pub checked: bool,
    pub over: bool,
    pub active: bool,
    pub hover: bool,
    pub focus: bool,
}

impl PseudoClasses {
    pub open spec fn none() -> PseudoClasses {
        PseudoClasses {
            enabled: false,
            disabled: false,
            checked: false,
            over: false,
            active: false,
            hover: false,
            focus: false,
        }
    }
}

impl Default for PseudoClasses {
    fn default() -> (r: PseudoClasses)
        ensures
            r == PseudoClasses::none(),
    {
        PseudoClasses {
            enabled: false,
            disabled: false,
            checked: false,
            over: false,
            active: false,
            hover: false,
            focus: false,
        }
    }
}

/// A sparse map from entities to the values of one property. An entity without
/// an entry has the property unset. Entries are keyed by the whole entity id, so
/// data left behind by a destroyed entity is never taken for that of a later
/// entity with the same index.
#[verifier::reject_recursive_types(T)]
pub struct Storage<T> {
    map: HashMap<u32, T>,
}

impl<T> View for Storage<T> {
    type V = Map<u32, T>;

    closed spec fn view(&self) -> Map<u32, T> {
        self.map@
    }
}

impl<T> Storage<T> {
    /// The value stored under `key`, or `default` where none is.
    pub open spec fn value_or(&self, key: u32, default: T) -> T {
        if self@.contains_key(key) {
            self@[key]
        } else {
            default
        }
    }

    pub fn new() -> (r: Storage<T>)
        ensures
            r@ == Map::<u32, T>::empty(),
    {
        Storage { map: HashMap::new() }
    }

    /// Sets the value of the entity, replacing any earlier one.
    pub fn insert(&mut self, entity: Entity, value: T)
        ensures
            final(self)@ == old(self)@.insert(entity.0, value),
    {
        self.map.insert(entity.0, value);
    }

    /// Removes the value of the entity and hands it back, if it had one.
    pub fn take(&mut self, entity: Entity) -> (r: Option<T>)
        ensures
            final(self)@ == old(self)@.remove(entity.0),
            r == (if old(self)@.contains_key(entity.0) { Some(old(self)@[entity.0]) } else { None }),
    {
        self.map.remove(&entity.0)
    }

    /// The value of the entity, if it has one.
    pub fn get(&self, entity: Entity) -> (r: Option<&T>)
        ensures
            match r {
                Some(v) => self@.contains_key(entity.0) && *v == self@[entity.0],
                None => !self@.contains_key(entity.0),
            },
    {
        self.map.get(&entity.0)
    }
}

/// The per-entity style properties, one sparse map each.
pub struct Style {
    pub pseudo_classes: Storage<PseudoClasses>,
    pub element: Storage<String>,
    pub id: Storage<String>,
    pub classes: Storage<Vec<String>>,
    pub visibility: Storage<Visibility>,
    pub overflow: Storage<Overflow>,
    pub display: Storage<Display>,
    pub opacity: Storage<Scalar>,
    pub rotate: Storage<Scalar>,
    pub flex_direction: Storage<FlexDirection>,
    pub justify_content: Storage<JustifyContent>,
    pub align_content: Storage<AlignContent>,
    pub align_items: Storage<AlignItems>,
    pub flex_grow: Storage<Scalar>,
    pub flex_shrink: Storage<Scalar>,
    pub flex_basis: Storage<Length>,
    pub align_self: Storage<AlignSelf>,
    pub position: Storage<Position>,
    pub left: Storage<Length>,
    pub right: Storage<Length>,
    pub top: Storage<Length>,
    pub bottom: Storage<Length>,
    pub width: Storage<Length>,
    pub height: Storage<Length>,
    pub min_width: Storage<Length>,
    pub max_width: Storage<Length>,
    pub min_height: Storage<Length>,
    pub max_height: Storage<Length>,
    pub tooltip: Storage<String>,
    pub text: Storage<Text>,
    pub font_size: Storage<Scalar>,
    pub font_color: Storage<Color>,
    pub text_justify: Storage<Justify>,
    pub text_align: Storage<Align>,
    pub background_color: Storage<Color>,
    pub background_image: Storage<String>,
    pub border_width: Storage<Length>,
    pub border_color: Storage<Color>,
    pub border_radius_top_left: Storage<Length>,
    pub border_radius_top_right: Storage<Length>,
    pub border_radius_bottom_left: Storage<Length>,
    pub border_radius_bottom_right: Storage<Length>,
    pub margin_left: Storage<Length>,
    pub margin_right: Storage<Length>,
    pub margin_top: Storage<Length>,
    pub margin_bottom: Storage<Length>,
    pub padding_left: Storage<Length>,
    pub padding_right: Storage<Length>,
    pub padding_top: Storage<Length>,
    pub padding_bottom: Storage<Length>,
    pub clip_widget: Storage<Entity>,
    pub z_order: Storage<i32>,
    pub focus_order: Storage<FocusOrder>,
}

impl Style {
    pub fn new() -> (r: Style)
        ensures
            r.pseudo_classes@ == Map::<u32, PseudoClasses>::empty(),
            r.element@ == Map::<u32, String>::empty(),
            r.id@ == Map::<u32, String>::empty(),
            r.classes@ == Map::<u32, Vec<String>>::empty(),
            r.visibility@ == Map::<u32, Visibility>::empty(),
            r.overflow@ == Map::<u32, Overflow>::empty(),
            r.display@ == Map::<u32, Display>::empty(),
            r.opacity@ == Map::<u32, Scalar>::empty(),
            r.rotate@ == Map::<u32, Scalar>::empty(),
            r.flex_direction@ == Map::<u32, FlexDirection>::empty(),
            r.justify_content@ == Map::<u32, JustifyContent>::empty(),
            r.align_content@ == Map::<u32, AlignContent>::empty(),
            r.align_items@ == Map::<u32, AlignItems>::empty(),
            r.flex_grow@ == Map::<u32, Scalar>::empty(),
            r.flex_shrink@ == Map::<u32, Scalar>::empty(),
            r.flex_basis@ == Map::<u32, Length>::empty(),
            r.align_self@ == Map::<u32, AlignSelf>::empty(),
            r.position@ == Map::<u32, Position>::empty(),
            r.left@ == Map::<u32, Length>::empty(),
            r.right@ == Map::<u32, Length>::empty(),
            r.top@ == Map::<u32, Length>::empty(),
            r.bottom@ == Map::<u32, Length>::empty(),
            r.width@ == Map::<u32, Length>::empty(),
            r.height@ == Map::<u32, Length>::empty(),
            r.min_width@ == Map::<u32, Length>::empty(),
            r.max_width@ == Map::<u32, Length>::empty(),
            r.min_height@ == Map::<u32, Length>::empty(),
            r.max_height@ == Map::<u32, Length>::empty(),
            r.tooltip@ == Map::<u32, String>::empty(),
            r.text@ == Map::<u32, Text>::empty(),
            r.font_size@ == Map::<u32, Scalar>::empty(),
            r.font_color@ == Map::<u32, Color>::empty(),
            r.text_justify@ == Map::<u32, Justify>::empty(),
            r.text_align@ == Map::<u32, Align>::empty(),
            r.background_color@ == Map::<u32, Color>::empty(),
            r.background_image@ == Map::<u32, String>::empty(),
            r.border_width@ == Map::<u32, Length>::empty(),
            r.border_color@ == Map::<u32, Color>::empty(),
            r.border_radius_top_left@ == Map::<u32, Length>::empty(),
            r.border_radius_top_right@ == Map::<u32, Length>::empty(),
            r.border_radius_bottom_left@ == Map::<u32, Length>::empty(),
            r.border_radius_bottom_right@ == Map::<u32, Length>::empty(),
            r.margin_left@ == Map::<u32, Length>::empty(),
            r.margin_right@ == Map::<u32, Length>::empty(),
            r.margin_top@ == Map::<u32, Length>::empty(),
            r.margin_bottom@ == Map::<u32, Length>::empty(),
            r.padding_left@ == Map::<u32, Length>::empty(),
            r.padding_right@ == Map::<u32, Length>::empty(),
            r.padding_top@ == Map::<u32, Length>::empty(),
            r.padding_bottom@ == Map::<u32, Length>::empty(),
            r.clip_widget@ == Map::<u32, Entity>::empty(),
            r.z_order@ == Map::<u32, i32>::empty(),
            r.focus_order@ == Map::<u32, FocusOrder>::empty(),
    {
        Style {
            pseudo_classes: Storage::new(),
            element: Storage::new(),
            id: Storage::new(),
            classes: Storage::new(),
            visibility: Storage::new(),
            overflow: Storage::new(),
            display: Storage::new(),
            opacity: Storage::new(),
            rotate: Storage::new(),
            flex_direction: Storage::new(),
            justify_content: Storage::new(),
            align_content: Storage::new(),
            align_items: Storage::new(),
            flex_grow: Storage::new(),
            flex_shrink: Storage::new(),
            flex_basis: Storage::new(),
            align_self: Storage::new(),
            position: Storage::new(),
            left: Storage::new(),
            right: Storage::new(),
            top: Storage::new(),
            bottom: Storage::new(),
            width: Storage::new(),
            height: Storage::new(),
            min_width: Storage::new(),
            max_width: Storage::new(),
            min_height: Storage::new(),
            max_height: Storage::new(),
            tooltip: Storage::new(),
            text: Storage::new(),
            font_size: Storage::new(),
            font_color: Storage::new(),
            text_justify: Storage::new(),
            text_align: Storage::new(),
            background_color: Storage::new(),
            background_image: Storage::new(),
            border_width: Storage::new(),
            border_color: Storage::new(),
            border_radius_top_left: Storage::new(),
            border_radius_top_right: Storage::new(),
            border_radius_bottom_left: Storage::new(),
            border_radius_bottom_right: Storage::new(),
            margin_left: Storage::new(),
            margin_right: Storage::new(),
            margin_top: Storage::new(),
            margin_bottom: Storage::new(),
            padding_left: Storage::new(),
            padding_right: Storage::new(),
            padding_top: Storage::new(),
            padding_bottom: Storage::new(),
            clip_widget: Storage::new(),
            z_order: Storage::new(),
            focus_order: Storage::new(),
        }
    }
}

} // verus!
