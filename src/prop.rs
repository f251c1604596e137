use crate::entity::Entity;
use crate::hierarchy::Hierarchy;
use crate::state::State;
use crate::style::{
    Align, AlignContent, AlignItems, AlignSelf, Color, Display, FlexDirection, FocusOrder, Justify,
    JustifyContent, Length, Overflow, Position, PseudoClasses, Scalar, Style, Text, Visibility,
};
use vstd::prelude::*;

verus! {

/// The classes of a class list, as character sequences.
pub open spec fn class_names(list: Seq<String>) -> Seq<Seq<char>> {
    list.map_values(|c: String| c@)
}

/// Property setters. Each stores the value for the entity and raises the
/// invalidation flags that the property calls for: a property that moves or
/// resizes boxes raises `needs_relayout` and `needs_redraw`; one that only
/// changes paint raises `needs_redraw`; a pseudo-class raises `needs_restyle`.
/// Each returns the entity, for chaining.
pub trait PropSet: Sized {
    /// The entity whose properties are set.
    spec fn ent(self) -> Entity;

    /// Adds a class name to the entity's classes, once.
    fn class(self, state: &mut State, class_name: &str) -> (r: Self)
        ensures
            r == self,
            final(state).style.classes@.contains_key(self.ent().0),
            final(state).style.classes@ == old(state).style.classes@.insert(self.ent().0, final(state).style.classes@[self.ent().0]),
            class_names(final(state).style.classes@[self.ent().0]@) == {
                let before = if old(state).style.classes@.contains_key(self.ent().0) {
                    class_names(old(state).style.classes@[self.ent().0]@)
                } else {
                    Seq::<Seq<char>>::empty()
                };
                if before.contains(class_name@) { before } else { before.push(class_name@) }
            },
            *final(state) == (State {
                style: Style {
                    classes: final(state).style.classes,
                    ..old(state).style
                },
                ..*old(state)
            }),
    ;

    /// The parent of the entity.
    fn get_parent(self, state: &mut State) -> (r: Option<Entity>)
        requires
            old(state).hierarchy.wf(),
        ensures
            *final(state) == *old(state),
            r == (if old(state).hierarchy.holds(self.ent()) {
                old(state).hierarchy.parent_of(Hierarchy::slot(self.ent()))
            } else {
                None
            }),
    ;

    fn set_enabled(self, state: &mut State, value: bool) -> (r: Self)
        ensures
            r == self,
            final(state).style.pseudo_classes@ == old(state).style.pseudo_classes@.insert(
                self.ent().0,
                PseudoClasses { enabled: value, disabled: !value, ..old(state).style.pseudo_classes.value_or(self.ent().0, PseudoClasses::none()) },
            ),
            *final(state) == (State {
                style: Style {
                    pseudo_classes: final(state).style.pseudo_classes,
                    ..old(state).style
                },
                needs_restyle: true,
                ..*old(state)
            }),
    ;

    fn set_disabled(self, state: &mut State, value: bool) -> (r: Self)
        ensures
            r == self,
            final(state).style.pseudo_classes@ == old(state).style.pseudo_classes@.insert(
                self.ent().0,
                PseudoClasses { disabled: value, enabled: !value, ..old(state).style.pseudo_classes.value_or(self.ent().0, PseudoClasses::none()) },
            ),
            *final(state) == (State {
                style: Style {
                    pseudo_classes: final(state).style.pseudo_classes,
                    ..old(state).style
                },
                needs_restyle: true,
                ..*old(state)
            }),
    ;

    fn set_checked(self, state: &mut State, value: bool) -> (r: Self)
        ensures
            r == self,
            final(state).style.pseudo_classes@ == old(state).style.pseudo_classes@.insert(
                self.ent().0,
                PseudoClasses { checked: value, ..old(state).style.pseudo_classes.value_or(self.ent().0, PseudoClasses::none()) },
            ),
            *final(state) == (State {
                style: Style {
                    pseudo_classes: final(state).style.pseudo_classes,
                    ..old(state).style
                },
                needs_restyle: true,
                needs_relayout: true,
                needs_redraw: true,
                ..*old(state)
            }),
    ;

    fn set_over(self, state: &mut State, value: bool) -> (r: Self)
        ensures
            r == self,
            final(state).style.pseudo_classes@ == old(state).style.pseudo_classes@.insert(
                self.ent().0,
                PseudoClasses { over: value, ..old(state).style.pseudo_classes.value_or(self.ent().0, PseudoClasses::none()) },
            ),
            *final(state) == (State {
                style: Style {
                    pseudo_classes: final(state).style.pseudo_classes,
                    ..old(state).style
                },
                needs_restyle: true,
                ..*old(state)
            }),
    ;

    fn set_active(self, state: &mut State, value: bool) -> (r: Self)
        ensures
            r == self,
            final(state).style.pseudo_classes@ == old(state).style.pseudo_classes@.insert(
                self.ent().0,
                PseudoClasses { active: value, ..old(state).style.pseudo_classes.value_or(self.ent().0, PseudoClasses::none()) },
            ),
            *final(state) == (State {
                style: Style {
                    pseudo_classes: final(state).style.pseudo_classes,
                    ..old(state).style
                },
                needs_restyle: true,
                ..*old(state)
            }),
    ;

    fn set_hover(self, state: &mut State, value: bool) -> (r: Self)
        ensures
            r == self,
            final(state).style.pseudo_classes@ == old(state).style.pseudo_classes@.insert(
                self.ent().0,
                PseudoClasses { hover: value, ..old(state).style.pseudo_classes.value_or(self.ent().0, PseudoClasses::none()) },
            ),
            *final(state) == (State {
                style: Style {
                    pseudo_classes: final(state).style.pseudo_classes,
                    ..old(state).style
                },
                needs_restyle: true,
                ..*old(state)
            }),
    ;

    fn set_focus(self, state: &mut State, value: bool) -> (r: Self)
        ensures
            r == self,
            final(state).style.pseudo_classes@ == old(state).style.pseudo_classes@.insert(
                self.ent().0,
                PseudoClasses { focus: value, ..old(state).style.pseudo_classes.value_or(self.ent().0, PseudoClasses::none()) },
            ),
            *final(state) == (State {
                style: Style {
                    pseudo_classes: final(state).style.pseudo_classes,
                    ..old(state).style
                },
                needs_restyle: true,
                ..*old(state)
            }),
    ;

    /// Sets the element name that selectors match.
    fn set_element(self, state: &mut State, value: &str) -> (r: Self)
        ensures
            r == self,
            final(state).style.element@.contains_key(self.ent().0),
            final(state).style.element@[self.ent().0]@ == value@,
            final(state).style.element@ == old(state).style.element@.insert(self.ent().0, final(state).style.element@[self.ent().0]),
            *final(state) == (State {
                style: Style {
                    element: final(state).style.element,
                    ..old(state).style
                },
                ..*old(state)
            }),
    ;

    /// Sets the id that selectors match.
    fn set_id(self, state: &mut State, value: &str) -> (r: Self)
        ensures
            r == self,
            final(state).style.id@.contains_key(self.ent().0),
            final(state).style.id@[self.ent().0]@ == value@,
            final(state).style.id@ == old(state).style.id@.insert(self.ent().0, final(state).style.id@[self.ent().0]),
            *final(state) == (State {
                style: Style {
                    id: final(state).style.id,
                    ..old(state).style
                },
                ..*old(state)
            }),
    ;

    /// Sets the tooltip text.
    fn set_tooltip(self, state: &mut State, value: &str) -> (r: Self)
        ensures
            r == self,
            final(state).style.tooltip@.contains_key(self.ent().0),
            final(state).style.tooltip@[self.ent().0]@ == value@,
            final(state).style.tooltip@ == old(state).style.tooltip@.insert(self.ent().0, final(state).style.tooltip@[self.ent().0]),
            *final(state) == (State {
                style: Style {
                    tooltip: final(state).style.tooltip,
                    ..old(state).style
                },
                ..*old(state)
            }),
    ;

    /// Adds a class name to the entity's classes, once.
    fn set_class(self, state: &mut State, value: &str) -> (r: Self)
        ensures
            r == self,
            final(state).style.classes@.contains_key(self.ent().0),
            final(state).style.classes@ == old(state).style.classes@.insert(self.ent().0, final(state).style.classes@[self.ent().0]),
            class_names(final(state).style.classes@[self.ent().0]@) == {
                let before = if old(state).style.classes@.contains_key(self.ent().0) {
                    class_names(old(state).style.classes@[self.ent().0]@)
                } else {
                    Seq::<Seq<char>>::empty()
                };
                if before.contains(value@) { before } else { before.push(value@) }
            },
            *final(state) == (State {
                style: Style {
                    classes: final(state).style.classes,
                    ..old(state).style
                },
                ..*old(state)
            }),
    ;

    fn set_visibility(self, state: &mut State, value: Visibility) -> (r: Self)
        ensures
            r == self,
            final(state).style.visibility@ == old(state).style.visibility@.insert(self.ent().0, value),
            *final(state) == (State {
                style: Style {
                    visibility: final(state).style.visibility,
                    ..old(state).style
                },
                needs_relayout: true,
                needs_redraw: true,
                ..*old(state)
            }),
    ;

    fn set_overflow(self, state: &mut State, value: Overflow) -> (r: Self)
        ensures
            r == self,
            final(state).style.overflow@ == old(state).style.overflow@.insert(self.ent().0, value),
            *final(state) == (State {
                style: Style {
                    overflow: final(state).style.overflow,
                    ..old(state).style
                },
                needs_relayout: true,
                needs_redraw: true,
                ..*old(state)
            }),
    ;

    fn set_display(self, state: &mut State, value: Display) -> (r: Self)
        ensures
            r == self,
            final(state).style.display@ == old(state).style.display@.insert(self.ent().0, value),
            *final(state) == (State {
                style: Style {
                    display: final(state).style.display,
                    ..old(state).style
                },
                needs_relayout: true,
                needs_redraw: true,
                ..*old(state)
            }),
    ;

    fn set_opacity(self, state: &mut State, value: Scalar) -> (r: Self)
        ensures
            r == self,
            final(state).style.opacity@ == old(state).style.opacity@.insert(self.ent().0, value),
            *final(state) == (State {
                style: Style {
                    opacity: final(state).style.opacity,
                    ..old(state).style
                },
                needs_relayout: true,
                needs_redraw: true,
                ..*old(state)
            }),
    ;

    fn set_rotate(self, state: &mut State, value: Scalar) -> (r: Self)
        ensures
            r == self,
            final(state).style.rotate@ == old(state).style.rotate@.insert(self.ent().0, value),
            *final(state) == (State {
                style: Style {
                    rotate: final(state).style.rotate,
                    ..old(state).style
                },
                needs_relayout: true,
                needs_redraw: true,
                ..*old(state)
            }),
    ;

    fn set_flex_direction(self, state: &mut State, value: FlexDirection) -> (r: Self)
        ensures
            r == self,
            final(state).style.flex_direction@ == old(state).style.flex_direction@.insert(self.ent().0, value),
            *final(state) == (State {
                style: Style {
                    flex_direction: final(state).style.flex_direction,
                    ..old(state).style
                },
                needs_relayout: true,
                needs_redraw: true,
                ..*old(state)
            }),
    ;

    fn set_justify_content(self, state: &mut State, value: JustifyContent) -> (r: Self)
        ensures
            r == self,
            final(state).style.justify_content@ == old(state).style.justify_content@.insert(self.ent().0, value),
            *final(state) == (State {
                style: Style {
                    justify_content: final(state).style.justify_content,
                    ..old(state).style
                },
                needs_relayout: true,
                needs_redraw: true,
                ..*old(state)
            }),
    ;

    fn set_align_content(self, state: &mut State, value: AlignContent) -> (r: Self)
        ensures
            r == self,
            final(state).style.align_content@ == old(state).style.align_content@.insert(self.ent().0, value),
            *final(state) == (State {
                style: Style {
                    align_content: final(state).style.align_content,
                    ..old(state).style
                },
                needs_relayout: true,
                needs_redraw: true,
                ..*old(state)
            }),
    ;

    fn set_align_items(self, state: &mut State, value: AlignItems) -> (r: Self)
        ensures
            r == self,
            final(state).style.align_items@ == old(state).style.align_items@.insert(self.ent().0, value),
            *final(state) == (State {
                style: Style {
                    align_items: final(state).style.align_items,
                    ..old(state).style
                },
                needs_relayout: true,
                needs_redraw: true,
                ..*old(state)
            }),
    ;

    fn set_flex_grow(self, state: &mut State, value: Scalar) -> (r: Self)
        ensures
            r == self,
            final(state).style.flex_grow@ == old(state).style.flex_grow@.insert(self.ent().0, value),
            *final(state) == (State {
                style: Style {
                    flex_grow: final(state).style.flex_grow,
                    ..old(state).style
                },
                needs_relayout: true,
                needs_redraw: true,
                ..*old(state)
            }),
    ;

    fn set_flex_shrink(self, state: &mut State, value: Scalar) -> (r: Self)
        ensures
            r == self,
            final(state).style.flex_shrink@ == old(state).style.flex_shrink@.insert(self.ent().0, value),
            *final(state) == (State {
                style: Style {
                    flex_shrink: final(state).style.flex_shrink,
                    ..old(state).style
                },
                needs_relayout: true,
                needs_redraw: true,
                ..*old(state)
            }),
    ;

    fn set_flex_basis(self, state: &mut State, value: Length) -> (r: Self)
        ensures
            r == self,
            final(state).style.flex_basis@ == old(state).style.flex_basis@.insert(self.ent().0, value),
            *final(state) == (State {
                style: Style {
                    flex_basis: final(state).style.flex_basis,
                    ..old(state).style
                },
                needs_relayout: true,
                needs_redraw: true,
                ..*old(state)
            }),
    ;

    fn set_align_self(self, state: &mut State, value: AlignSelf) -> (r: Self)
        ensures
            r == self,
            final(state).style.align_self@ == old(state).style.align_self@.insert(self.ent().0, value),
            *final(state) == (State {
                style: Style {
                    align_self: final(state).style.align_self,
                    ..old(state).style
                },
                needs_relayout: true,
                needs_redraw: true,
                ..*old(state)
            }),
    ;

    fn set_position(self, state: &mut State, value: Position) -> (r: Self)
        ensures
            r == self,
            final(state).style.position@ == old(state).style.position@.insert(self.ent().0, value),
            *final(state) == (State {
                style: Style {
                    position: final(state).style.position,
                    ..old(state).style
                },
                needs_relayout: true,
                needs_redraw: true,
                ..*old(state)
            }),
    ;

    fn set_left(self, state: &mut State, value: Length) -> (r: Self)
        ensures
            r == self,
            final(state).style.left@ == old(state).style.left@.insert(self.ent().0, value),
            *final(state) == (State {
                style: Style {
                    left: final(state).style.left,
                    ..old(state).style
                },
                needs_relayout: true,
                needs_redraw: true,
                ..*old(state)
            }),
    ;

    fn set_right(self, state: &mut State, value: Length) -> (r: Self)
        ensures
            r == self,
            final(state).style.right@ == old(state).style.right@.insert(self.ent().0, value),
            *final(state) == (State {
                style: Style {
                    right: final(state).style.right,
                    ..old(state).style
                },
                needs_relayout: true,
                needs_redraw: true,
                ..*old(state)
            }),
    ;

    fn set_top(self, state: &mut State, value: Length) -> (r: Self)
        ensures
            r == self,
            final(state).style.top@ == old(state).style.top@.insert(self.ent().0, value),
            *final(state) == (State {
                style: Style {
                    top: final(state).style.top,
                    ..old(state).style
                },
                needs_relayout: true,
                needs_redraw: true,
                ..*old(state)
            }),
    ;

    fn set_bottom(self, state: &mut State, value: Length) -> (r: Self)
        ensures
            r == self,
            final(state).style.bottom@ == old(state).style.bottom@.insert(self.ent().0, value),
            *final(state) == (State {
                style: Style {
                    bottom: final(state).style.bottom,
                    ..old(state).style
                },
                needs_relayout: true,
                needs_redraw: true,
                ..*old(state)
            }),
    ;

    fn set_width(self, state: &mut State, value: Length) -> (r: Self)
        ensures
            r == self,
            final(state).style.width@ == old(state).style.width@.insert(self.ent().0, value),
            *final(state) == (State {
                style: Style {
                    width: final(state).style.width,
                    ..old(state).style
                },
                needs_relayout: true,
                needs_redraw: true,
                ..*old(state)
            }),
    ;

    fn set_height(self, state: &mut State, value: Length) -> (r: Self)
        ensures
            r == self,
            final(state).style.height@ == old(state).style.height@.insert(self.ent().0, value),
            *final(state) == (State {
                style: Style {
                    height: final(state).style.height,
                    ..old(state).style
                },
                needs_relayout: true,
                needs_redraw: true,
                ..*old(state)
            }),
    ;

    fn set_min_width(self, state: &mut State, value: Length) -> (r: Self)
        ensures
            r == self,
            final(state).style.min_width@ == old(state).style.min_width@.insert(self.ent().0, value),
            *final(state) == (State {
                style: Style {
                    min_width: final(state).style.min_width,
                    ..old(state).style
                },
                needs_relayout: true,
                needs_redraw: true,
                ..*old(state)
            }),
    ;

    fn set_max_width(self, state: &mut State, value: Length) -> (r: Self)
        ensures
            r == self,
            final(state).style.max_width@ == old(state).style.max_width@.insert(self.ent().0, value),
            *final(state) == (State {
                style: Style {
                    max_width: final(state).style.max_width,
                    ..old(state).style
                },
                needs_relayout: true,
                needs_redraw: true,
                ..*old(state)
            }),
    ;

    fn set_min_height(self, state: &mut State, value: Length) -> (r: Self)
        ensures
            r == self,
            final(state).style.min_height@ == old(state).style.min_height@.insert(self.ent().0, value),
            *final(state) == (State {
                style: Style {
                    min_height: final(state).style.min_height,
                    ..old(state).style
                },
                needs_relayout: true,
                needs_redraw: true,
                ..*old(state)
            }),
    ;

    fn set_max_height(self, state: &mut State, value: Length) -> (r: Self)
        ensures
            r == self,
            final(state).style.max_height@ == old(state).style.max_height@.insert(self.ent().0, value),
            *final(state) == (State {
                style: Style {
                    max_height: final(state).style.max_height,
                    ..old(state).style
                },
                needs_relayout: true,
                needs_redraw: true,
                ..*old(state)
            }),
    ;

    fn set_font_size(self, state: &mut State, value: Scalar) -> (r: Self)
        ensures
            r == self,
            final(state).style.font_size@ == old(state).style.font_size@.insert(self.ent().0, value),
            *final(state) == (State {
                style: Style {
                    font_size: final(state).style.font_size,
                    ..old(state).style
                },
                needs_relayout: true,
                needs_redraw: true,
                ..*old(state)
            }),
    ;

    fn set_font_color(self, state: &mut State, value: Color) -> (r: Self)
        ensures
            r == self,
            final(state).style.font_color@ == old(state).style.font_color@.insert(self.ent().0, value),
            *final(state) == (State {
                style: Style {
                    font_color: final(state).style.font_color,
                    ..old(state).style
                },
                needs_redraw: true,
                ..*old(state)
            }),
    ;

    fn set_text_align(self, state: &mut State, value: Align) -> (r: Self)
        ensures
            r == self,
            final(state).style.text_align@ == old(state).style.text_align@.insert(self.ent().0, value),
            *final(state) == (State {
                style: Style {
                    text_align: final(state).style.text_align,
                    ..old(state).style
                },
                needs_redraw: true,
                ..*old(state)
            }),
    ;

    fn set_text_justify(self, state: &mut State, value: Justify) -> (r: Self)
        ensures
            r == self,
            final(state).style.text_justify@ == old(state).style.text_justify@.insert(self.ent().0, value),
            *final(state) == (State {
                style: Style {
                    text_justify: final(state).style.text_justify,
                    ..old(state).style
                },
                needs_redraw: true,
                ..*old(state)
            }),
    ;

    fn set_background_color(self, state: &mut State, value: Color) -> (r: Self)
        ensures
            r == self,
            final(state).style.background_color@ == old(state).style.background_color@.insert(self.ent().0, value),
            *final(state) == (State {
                style: Style {
                    background_color: final(state).style.background_color,
                    ..old(state).style
                },
                needs_redraw: true,
                ..*old(state)
            }),
    ;

    fn set_background_image(self, state: &mut State, value: String) -> (r: Self)
        ensures
            r == self,
            final(state).style.background_image@ == old(state).style.background_image@.insert(self.ent().0, value),
            *final(state) == (State {
                style: Style {
                    background_image: final(state).style.background_image,
                    ..old(state).style
                },
                needs_redraw: true,
                ..*old(state)
            }),
    ;

    fn set_border_width(self, state: &mut State, value: Length) -> (r: Self)
        ensures
            r == self,
            final(state).style.border_width@ == old(state).style.border_width@.insert(self.ent().0, value),
            *final(state) == (State {
                style: Style {
                    border_width: final(state).style.border_width,
                    ..old(state).style
                },
                needs_relayout: true,
                needs_redraw: true,
                ..*old(state)
            }),
    ;

    fn set_border_color(self, state: &mut State, value: Color) -> (r: Self)
        ensures
            r == self,
            final(state).style.border_color@ == old(state).style.border_color@.insert(self.ent().0, value),
            *final(state) == (State {
                style: Style {
                    border_color: final(state).style.border_color,
                    ..old(state).style
                },
                needs_redraw: true,
                ..*old(state)
            }),
    ;

    fn set_border_radius_top_left(self, state: &mut State, value: Length) -> (r: Self)
        ensures
            r == self,
            final(state).style.border_radius_top_left@ == old(state).style.border_radius_top_left@.insert(self.ent().0, value),
            *final(state) == (State {
                style: Style {
                    border_radius_top_left: final(state).style.border_radius_top_left,
                    ..old(state).style
                },
                needs_redraw: true,
                ..*old(state)
            }),
    ;

    fn set_border_radius_top_right(self, state: &mut State, value: Length) -> (r: Self)
        ensures
            r == self,
            final(state).style.border_radius_top_right@ == old(state).style.border_radius_top_right@.insert(self.ent().0, value),
            *final(state) == (State {
                style: Style {
                    border_radius_top_right: final(state).style.border_radius_top_right,
                    ..old(state).style
                },
                needs_redraw: true,
                ..*old(state)
            }),
    ;

    fn set_border_radius_bottom_left(self, state: &mut State, value: Length) -> (r: Self)
        ensures
            r == self,
            final(state).style.border_radius_bottom_left@ == old(state).style.border_radius_bottom_left@.insert(self.ent().0, value),
            *final(state) == (State {
                style: Style {
                    border_radius_bottom_left: final(state).style.border_radius_bottom_left,
                    ..old(state).style
                },
                needs_redraw: true,
                ..*old(state)
            }),
    ;

    fn set_border_radius_bottom_right(self, state: &mut State, value: Length) -> (r: Self)
        ensures
            r == self,
            final(state).style.border_radius_bottom_right@ == old(state).style.border_radius_bottom_right@.insert(self.ent().0, value),
            *final(state) == (State {
                style: Style {
                    border_radius_bottom_right: final(state).style.border_radius_bottom_right,
                    ..old(state).style
                },
                needs_redraw: true,
                ..*old(state)
            }),
    ;

    fn set_margin_left(self, state: &mut State, value: Length) -> (r: Self)
        ensures
            r == self,
            final(state).style.margin_left@ == old(state).style.margin_left@.insert(self.ent().0, value),
            *final(state) == (State {
                style: Style {
                    margin_left: final(state).style.margin_left,
                    ..old(state).style
                },
                needs_relayout: true,
                needs_redraw: true,
                ..*old(state)
            }),
    ;

    fn set_margin_right(self, state: &mut State, value: Length) -> (r: Self)
        ensures
            r == self,
            final(state).style.margin_right@ == old(state).style.margin_right@.insert(self.ent().0, value),
            *final(state) == (State {
                style: Style {
                    margin_right: final(state).style.margin_right,
                    ..old(state).style
                },
                needs_relayout: true,
                needs_redraw: true,
                ..*old(state)
            }),
    ;

    fn set_margin_top(self, state: &mut State, value: Length) -> (r: Self)
        ensures
            r == self,
            final(state).style.margin_top@ == old(state).style.margin_top@.insert(self.ent().0, value),
            *final(state) == (State {
                style: Style {
                    margin_top: final(state).style.margin_top,
                    ..old(state).style
                },
                needs_relayout: true,
                needs_redraw: true,
                ..*old(state)
            }),
    ;

    fn set_margin_bottom(self, state: &mut State, value: Length) -> (r: Self)
        ensures
            r == self,
            final(state).style.margin_bottom@ == old(state).style.margin_bottom@.insert(self.ent().0, value),
            *final(state) == (State {
                style: Style {
                    margin_bottom: final(state).style.margin_bottom,
                    ..old(state).style
                },
                needs_relayout: true,
                needs_redraw: true,
                ..*old(state)
            }),
    ;

    fn set_padding_left(self, state: &mut State, value: Length) -> (r: Self)
        ensures
            r == self,
            final(state).style.padding_left@ == old(state).style.padding_left@.insert(self.ent().0, value),
            *final(state) == (State {
                style: Style {
                    padding_left: final(state).style.padding_left,
                    ..old(state).style
                },
                needs_relayout: true,
                needs_redraw: true,
                ..*old(state)
            }),
    ;

    fn set_padding_right(self, state: &mut State, value: Length) -> (r: Self)
        ensures
            r == self,
            final(state).style.padding_right@ == old(state).style.padding_right@.insert(self.ent().0, value),
            *final(state) == (State {
                style: Style {
                    padding_right: final(state).style.padding_right,
                    ..old(state).style
                },
                needs_relayout: true,
                needs_redraw: true,
                ..*old(state)
            }),
    ;

    fn set_padding_top(self, state: &mut State, value: Length) -> (r: Self)
        ensures
            r == self,
            final(state).style.padding_top@ == old(state).style.padding_top@.insert(self.ent().0, value),
            *final(state) == (State {
                style: Style {
                    padding_top: final(state).style.padding_top,
                    ..old(state).style
                },
                needs_relayout: true,
                needs_redraw: true,
                ..*old(state)
            }),
    ;

    fn set_padding_bottom(self, state: &mut State, value: Length) -> (r: Self)
        ensures
            r == self,
            final(state).style.padding_bottom@ == old(state).style.padding_bottom@.insert(self.ent().0, value),
            *final(state) == (State {
                style: Style {
                    padding_bottom: final(state).style.padding_bottom,
                    ..old(state).style
                },
                needs_relayout: true,
                needs_redraw: true,
                ..*old(state)
            }),
    ;

    fn set_clip_widget(self, state: &mut State, value: Entity) -> (r: Self)
        ensures
            r == self,
            final(state).style.clip_widget@ == old(state).style.clip_widget@.insert(self.ent().0, value),
            *final(state) == (State {
                style: Style {
                    clip_widget: final(state).style.clip_widget,
                    ..old(state).style
                },
                needs_relayout: true,
                needs_redraw: true,
                ..*old(state)
            }),
    ;

    fn set_z_order(self, state: &mut State, value: i32) -> (r: Self)
        ensures
            r == self,
            final(state).style.z_order@ == old(state).style.z_order@.insert(self.ent().0, value),
            *final(state) == (State {
                style: Style {
                    z_order: final(state).style.z_order,
                    ..old(state).style
                },
                needs_relayout: true,
                needs_redraw: true,
                ..*old(state)
            }),
    ;

    /// Sets the four corner radii.
    fn set_border_radius(self, state: &mut State, value: Length) -> (r: Self)
        ensures
            r == self,
            final(state).style.border_radius_top_left@ == old(state).style.border_radius_top_left@.insert(self.ent().0, value),
            final(state).style.border_radius_top_right@ == old(state).style.border_radius_top_right@.insert(self.ent().0, value),
            final(state).style.border_radius_bottom_left@ == old(state).style.border_radius_bottom_left@.insert(self.ent().0, value),
            final(state).style.border_radius_bottom_right@ == old(state).style.border_radius_bottom_right@.insert(self.ent().0, value),
            *final(state) == (State {
                style: Style {
                    border_radius_top_left: final(state).style.border_radius_top_left,
                    border_radius_top_right: final(state).style.border_radius_top_right,
                    border_radius_bottom_left: final(state).style.border_radius_bottom_left,
                    border_radius_bottom_right: final(state).style.border_radius_bottom_right,
                    ..old(state).style
                },
                needs_redraw: true,
                ..*old(state)
            }),
    ;

    /// Sets the four margins.
    fn set_margin(self, state: &mut State, value: Length) -> (r: Self)
        ensures
            r == self,
            final(state).style.margin_left@ == old(state).style.margin_left@.insert(self.ent().0, value),
            final(state).style.margin_right@ == old(state).style.margin_right@.insert(self.ent().0, value),
            final(state).style.margin_top@ == old(state).style.margin_top@.insert(self.ent().0, value),
            final(state).style.margin_bottom@ == old(state).style.margin_bottom@.insert(self.ent().0, value),
            *final(state) == (State {
                style: Style {
                    margin_left: final(state).style.margin_left,
                    margin_right: final(state).style.margin_right,
                    margin_top: final(state).style.margin_top,
                    margin_bottom: final(state).style.margin_bottom,
                    ..old(state).style
                },
                needs_relayout: true,
                needs_redraw: true,
                ..*old(state)
            }),
    ;

    /// Sets the four paddings.
    fn set_padding(self, state: &mut State, value: Length) -> (r: Self)
        ensures
            r == self,
            final(state).style.padding_left@ == old(state).style.padding_left@.insert(self.ent().0, value),
            final(state).style.padding_right@ == old(state).style.padding_right@.insert(self.ent().0, value),
            final(state).style.padding_top@ == old(state).style.padding_top@.insert(self.ent().0, value),
            final(state).style.padding_bottom@ == old(state).style.padding_bottom@.insert(self.ent().0, value),
            *final(state) == (State {
                style: Style {
                    padding_left: final(state).style.padding_left,
                    padding_right: final(state).style.padding_right,
                    padding_top: final(state).style.padding_top,
                    padding_bottom: final(state).style.padding_bottom,
                    ..old(state).style
                },
                needs_relayout: true,
                needs_redraw: true,
                ..*old(state)
            }),
    ;

    fn set_text(self, state: &mut State, value: &str) -> (r: Self)
        ensures
            r == self,
            final(state).style.text@.contains_key(self.ent().0),
            final(state).style.text@[self.ent().0].text@ == value@,
            final(state).style.text@[self.ent().0].font@ == (if old(state).style.text@.contains_key(self.ent().0) {
                old(state).style.text@[self.ent().0].font@
            } else {
                Seq::<char>::empty()
            }),
            final(state).style.text@ == old(state).style.text@.insert(self.ent().0, final(state).style.text@[self.ent().0]),
            *final(state) == (State {
                style: Style {
                    text: final(state).style.text,
                    ..old(state).style
                },
                needs_relayout: true,
                needs_redraw: true,
                ..*old(state)
            }),
    ;

    fn set_font(self, state: &mut State, value: &str) -> (r: Self)
        ensures
            r == self,
            final(state).style.text@.contains_key(self.ent().0),
            final(state).style.text@[self.ent().0].font@ == value@,
            final(state).style.text@[self.ent().0].text@ == (if old(state).style.text@.contains_key(self.ent().0) {
                old(state).style.text@[self.ent().0].text@
            } else {
                Seq::<char>::empty()
            }),
            final(state).style.text@ == old(state).style.text@.insert(self.ent().0, final(state).style.text@[self.ent().0]),
            *final(state) == (State {
                style: Style {
                    text: final(state).style.text,
                    ..old(state).style
                },
                needs_relayout: true,
                needs_redraw: true,
                ..*old(state)
            }),
    ;

    fn set_next_focus(self, state: &mut State, value: Entity) -> (r: Self)
        ensures
            r == self,
            final(state).style.focus_order@ == old(state).style.focus_order@.insert(
                self.ent().0,
                FocusOrder { next: value, ..old(state).style.focus_order.value_or(self.ent().0, FocusOrder { next: Entity(u32::MAX), prev: Entity(u32::MAX) }) },
            ),
            *final(state) == (State {
                style: Style {
                    focus_order: final(state).style.focus_order,
                    ..old(state).style
                },
                needs_relayout: true,
                needs_redraw: true,
                ..*old(state)
            }),
    ;

    fn set_prev_focus(self, state: &mut State, value: Entity) -> (r: Self)
        ensures
            r == self,
            final(state).style.focus_order@ == old(state).style.focus_order@.insert(
                self.ent().0,
                FocusOrder { prev: value, ..old(state).style.focus_order.value_or(self.ent().0, FocusOrder { next: Entity(u32::MAX), prev: Entity(u32::MAX) }) },
            ),
            *final(state) == (State {
                style: Style {
                    focus_order: final(state).style.focus_order,
                    ..old(state).style
                },
                needs_relayout: true,
                needs_redraw: true,
                ..*old(state)
            }),
    ;

    fn set_focus_order(self, state: &mut State, next: Entity, prev: Entity) -> (r: Self)
        ensures
            r == self,
            final(state).style.focus_order@ == old(state).style.focus_order@.insert(
                self.ent().0,
                FocusOrder { next, prev, ..old(state).style.focus_order.value_or(self.ent().0, FocusOrder { next: Entity(u32::MAX), prev: Entity(u32::MAX) }) },
            ),
            *final(state) == (State {
                style: Style {
                    focus_order: final(state).style.focus_order,
                    ..old(state).style
                },
                needs_relayout: true,
                needs_redraw: true,
                ..*old(state)
            }),
    ;
}

impl PropSet for Entity {
    open spec fn ent(self) -> Entity {
        self
    }

    fn class(self, state: &mut State, class_name: &str) -> (r: Self) {
        add_class(state, self, class_name);
        self
    }

    fn get_parent(self, state: &mut State) -> (r: Option<Entity>) {
        state.hierarchy.get_parent(self)
    }

    fn set_enabled(self, state: &mut State, value: bool) -> (r: Self) {
        let mut pc = match state.style.pseudo_classes.take(self) {
            Some(pc) => pc,
            None => PseudoClasses::default(),
        };
        pc.enabled = value;
        pc.disabled = !value;
        state.style.pseudo_classes.insert(self, pc);
        state.needs_restyle = true;
        self
    }

    fn set_disabled(self, state: &mut State, value: bool) -> (r: Self) {
        let mut pc = match state.style.pseudo_classes.take(self) {
            Some(pc) => pc,
            None => PseudoClasses::default(),
        };
        pc.disabled = value;
        pc.enabled = !value;
        state.style.pseudo_classes.insert(self, pc);
        state.needs_restyle = true;
        self
    }

    fn set_checked(self, state: &mut State, value: bool) -> (r: Self) {
        let mut pc = match state.style.pseudo_classes.take(self) {
            Some(pc) => pc,
            None => PseudoClasses::default(),
        };
        pc.checked = value;
        state.style.pseudo_classes.insert(self, pc);
        state.needs_restyle = true;
        state.needs_relayout = true;
        state.needs_redraw = true;
        self
    }

    fn set_over(self, state: &mut State, value: bool) -> (r: Self) {
        let mut pc = match state.style.pseudo_classes.take(self) {
            Some(pc) => pc,
            None => PseudoClasses::default(),
        };
        pc.over = value;
        state.style.pseudo_classes.insert(self, pc);
        state.needs_restyle = true;
        self
    }

    fn set_active(self, state: &mut State, value: bool) -> (r: Self) {
        let mut pc = match state.style.pseudo_classes.take(self) {
            Some(pc) => pc,
            None => PseudoClasses::default(),
        };
        pc.active = value;
        state.style.pseudo_classes.insert(self, pc);
        state.needs_restyle = true;
        self
    }

    fn set_hover(self, state: &mut State, value: bool) -> (r: Self) {
        let mut pc = match state.style.pseudo_classes.take(self) {
            Some(pc) => pc,
            None => PseudoClasses::default(),
        };
        pc.hover = value;
        state.style.pseudo_classes.insert(self, pc);
        state.needs_restyle = true;
        self
    }

    fn set_focus(self, state: &mut State, value: bool) -> (r: Self) {
        let mut pc = match state.style.pseudo_classes.take(self) {
            Some(pc) => pc,
            None => PseudoClasses::default(),
        };
        pc.focus = value;
        state.style.pseudo_classes.insert(self, pc);
        state.needs_restyle = true;
        self
    }

    fn set_element(self, state: &mut State, value: &str) -> (r: Self) {
        state.style.element.insert(self, value.to_owned());
        self
    }

    fn set_id(self, state: &mut State, value: &str) -> (r: Self) {
        state.style.id.insert(self, value.to_owned());
        self
    }

    fn set_tooltip(self, state: &mut State, value: &str) -> (r: Self) {
        state.style.tooltip.insert(self, value.to_owned());
        self
    }

    fn set_class(self, state: &mut State, value: &str) -> (r: Self) {
        add_class(state, self, value);
        self
    }

    fn set_visibility(self, state: &mut State, value: Visibility) -> (r: Self) {
        state.style.visibility.insert(self, value);
        state.needs_relayout = true;
        state.needs_redraw = true;
        self
    }

    fn set_overflow(self, state: &mut State, value: Overflow) -> (r: Self) {
        state.style.overflow.insert(self, value);
        state.needs_relayout = true;
        state.needs_redraw = true;
        self
    }

    fn set_display(self, state: &mut State, value: Display) -> (r: Self) {
        state.style.display.insert(self, value);
        state.needs_relayout = true;
        state.needs_redraw = true;
        self
    }

    fn set_opacity(self, state: &mut State, value: Scalar) -> (r: Self) {
        state.style.opacity.insert(self, value);
        state.needs_relayout = true;
        state.needs_redraw = true;
        self
    }

    fn set_rotate(self, state: &mut State, value: Scalar) -> (r: Self) {
        state.style.rotate.insert(self, value);
        state.needs_relayout = true;
        state.needs_redraw = true;
        self
    }

    fn set_flex_direction(self, state: &mut State, value: FlexDirection) -> (r: Self) {
        state.style.flex_direction.insert(self, value);
        state.needs_relayout = true;
        state.needs_redraw = true;
        self
    }

    fn set_justify_content(self, state: &mut State, value: JustifyContent) -> (r: Self) {
        state.style.justify_content.insert(self, value);
        state.needs_relayout = true;
        state.needs_redraw = true;
        self
    }

    fn set_align_content(self, state: &mut State, value: AlignContent) -> (r: Self) {
        state.style.align_content.insert(self, value);
        state.needs_relayout = true;
        state.needs_redraw = true;
        self
    }

    fn set_align_items(self, state: &mut State, value: AlignItems) -> (r: Self) {
        state.style.align_items.insert(self, value);
        state.needs_relayout = true;
        state.needs_redraw = true;
        self
    }

    fn set_flex_grow(self, state: &mut State, value: Scalar) -> (r: Self) {
        state.style.flex_grow.insert(self, value);
        state.needs_relayout = true;
        state.needs_redraw = true;
        self
    }

    fn set_flex_shrink(self, state: &mut State, value: Scalar) -> (r: Self) {
        state.style.flex_shrink.insert(self, value);
        state.needs_relayout = true;
        state.needs_redraw = true;
        self
    }

    fn set_flex_basis(self, state: &mut State, value: Length) -> (r: Self) {
        state.style.flex_basis.insert(self, value);
        state.needs_relayout = true;
        state.needs_redraw = true;
        self
    }

    fn set_align_self(self, state: &mut State, value: AlignSelf) -> (r: Self) {
        state.style.align_self.insert(self, value);
        state.needs_relayout = true;
        state.needs_redraw = true;
        self
    }

    fn set_position(self, state: &mut State, value: Position) -> (r: Self) {
        state.style.position.insert(self, value);
        state.needs_relayout = true;
        state.needs_redraw = true;
        self
    }

    fn set_left(self, state: &mut State, value: Length) -> (r: Self) {
        state.style.left.insert(self, value);
        state.needs_relayout = true;
        state.needs_redraw = true;
        self
    }

    fn set_right(self, state: &mut State, value: Length) -> (r: Self) {
        state.style.right.insert(self, value);
        state.needs_relayout = true;
        state.needs_redraw = true;
        self
    }

    fn set_top(self, state: &mut State, value: Length) -> (r: Self) {
        state.style.top.insert(self, value);
        state.needs_relayout = true;
        state.needs_redraw = true;
        self
    }

    fn set_bottom(self, state: &mut State, value: Length) -> (r: Self) {
        state.style.bottom.insert(self, value);
        state.needs_relayout = true;
        state.needs_redraw = true;
        self
    }

    fn set_width(self, state: &mut State, value: Length) -> (r: Self) {
        state.style.width.insert(self, value);
        state.needs_relayout = true;
        state.needs_redraw = true;
        self
    }

    fn set_height(self, state: &mut State, value: Length) -> (r: Self) {
        state.style.height.insert(self, value);
        state.needs_relayout = true;
        state.needs_redraw = true;
        self
    }

    fn set_min_width(self, state: &mut State, value: Length) -> (r: Self) {
        state.style.min_width.insert(self, value);
        state.needs_relayout = true;
        state.needs_redraw = true;
        self
    }

    fn set_max_width(self, state: &mut State, value: Length) -> (r: Self) {
        state.style.max_width.insert(self, value);
        state.needs_relayout = true;
        state.needs_redraw = true;
        self
    }

    fn set_min_height(self, state: &mut State, value: Length) -> (r: Self) {
        state.style.min_height.insert(self, value);
        state.needs_relayout = true;
        state.needs_redraw = true;
        self
    }

    fn set_max_height(self, state: &mut State, value: Length) -> (r: Self) {
        state.style.max_height.insert(self, value);
        state.needs_relayout = true;
        state.needs_redraw = true;
        self
    }

    fn set_font_size(self, state: &mut State, value: Scalar) -> (r: Self) {
        state.style.font_size.insert(self, value);
        state.needs_relayout = true;
        state.needs_redraw = true;
        self
    }

    fn set_font_color(self, state: &mut State, value: Color) -> (r: Self) {
        state.style.font_color.insert(self, value);
        state.needs_redraw = true;
        self
    }

    fn set_text_align(self, state: &mut State, value: Align) -> (r: Self) {
        state.style.text_align.insert(self, value);
        state.needs_redraw = true;
        self
    }

    fn set_text_justify(self, state: &mut State, value: Justify) -> (r: Self) {
        state.style.text_justify.insert(self, value);
        state.needs_redraw = true;
        self
    }

    fn set_background_color(self, state: &mut State, value: Color) -> (r: Self) {
        state.style.background_color.insert(self, value);
        state.needs_redraw = true;
        self
    }

    fn set_background_image(self, state: &mut State, value: String) -> (r: Self) {
        state.style.background_image.insert(self, value);
        state.needs_redraw = true;
        self
    }

    fn set_border_width(self, state: &mut State, value: Length) -> (r: Self) {
        state.style.border_width.insert(self, value);
        state.needs_relayout = true;
        state.needs_redraw = true;
        self
    }

    fn set_border_color(self, state: &mut State, value: Color) -> (r: Self) {
        state.style.border_color.insert(self, value);
        state.needs_redraw = true;
        self
    }

    fn set_border_radius_top_left(self, state: &mut State, value: Length) -> (r: Self) {
        state.style.border_radius_top_left.insert(self, value);
        state.needs_redraw = true;
        self
    }

    fn set_border_radius_top_right(self, state: &mut State, value: Length) -> (r: Self) {
        state.style.border_radius_top_right.insert(self, value);
        state.needs_redraw = true;
        self
    }

    fn set_border_radius_bottom_left(self, state: &mut State, value: Length) -> (r: Self) {
        state.style.border_radius_bottom_left.insert(self, value);
        state.needs_redraw = true;
        self
    }

    fn set_border_radius_bottom_right(self, state: &mut State, value: Length) -> (r: Self) {
        state.style.border_radius_bottom_right.insert(self, value);
        state.needs_redraw = true;
        self
    }

    fn set_margin_left(self, state: &mut State, value: Length) -> (r: Self) {
        state.style.margin_left.insert(self, value);
        state.needs_relayout = true;
        state.needs_redraw = true;
        self
    }

    fn set_margin_right(self, state: &mut State, value: Length) -> (r: Self) {
        state.style.margin_right.insert(self, value);
        state.needs_relayout = true;
        state.needs_redraw = true;
        self
    }

    fn set_margin_top(self, state: &mut State, value: Length) -> (r: Self) {
        state.style.margin_top.insert(self, value);
        state.needs_relayout = true;
        state.needs_redraw = true;
        self
    }

    fn set_margin_bottom(self, state: &mut State, value: Length) -> (r: Self) {
        state.style.margin_bottom.insert(self, value);
        state.needs_relayout = true;
        state.needs_redraw = true;
        self
    }

    fn set_padding_left(self, state: &mut State, value: Length) -> (r: Self) {
        state.style.padding_left.insert(self, value);
        state.needs_relayout = true;
        state.needs_redraw = true;
        self
    }

    fn set_padding_right(self, state: &mut State, value: Length) -> (r: Self) {
        state.style.padding_right.insert(self, value);
        state.needs_relayout = true;
        state.needs_redraw = true;
        self
    }

    fn set_padding_top(self, state: &mut State, value: Length) -> (r: Self) {
        state.style.padding_top.insert(self, value);
        state.needs_relayout = true;
        state.needs_redraw = true;
        self
    }

    fn set_padding_bottom(self, state: &mut State, value: Length) -> (r: Self) {
        state.style.padding_bottom.insert(self, value);
        state.needs_relayout = true;
        state.needs_redraw = true;
        self
    }

    fn set_clip_widget(self, state: &mut State, value: Entity) -> (r: Self) {
        state.style.clip_widget.insert(self, value);
        state.needs_relayout = true;
        state.needs_redraw = true;
        self
    }

    fn set_z_order(self, state: &mut State, value: i32) -> (r: Self) {
        state.style.z_order.insert(self, value);
        state.needs_relayout = true;
        state.needs_redraw = true;
        self
    }

    fn set_border_radius(self, state: &mut State, value: Length) -> (r: Self) {
        state.style.border_radius_top_left.insert(self, value);
        state.style.border_radius_top_right.insert(self, value);
        state.style.border_radius_bottom_left.insert(self, value);
        state.style.border_radius_bottom_right.insert(self, value);
        state.needs_redraw = true;
        self
    }

    fn set_margin(self, state: &mut State, value: Length) -> (r: Self) {
        state.style.margin_left.insert(self, value);
        state.style.margin_right.insert(self, value);
        state.style.margin_top.insert(self, value);
        state.style.margin_bottom.insert(self, value);
        state.needs_relayout = true;
        state.needs_redraw = true;
        self
    }

    fn set_padding(self, state: &mut State, value: Length) -> (r: Self) {
        state.style.padding_left.insert(self, value);
        state.style.padding_right.insert(self, value);
        state.style.padding_top.insert(self, value);
        state.style.padding_bottom.insert(self, value);
        state.needs_relayout = true;
        state.needs_redraw = true;
        self
    }

    fn set_text(self, state: &mut State, value: &str) -> (r: Self) {
        let t = match state.style.text.take(self) {
            Some(t) => Text { text: value.to_owned(), font: t.font },
            None => Text { text: value.to_owned(), font: String::new() },
        };
        state.style.text.insert(self, t);
        state.needs_relayout = true;
        state.needs_redraw = true;
        self
    }

    fn set_font(self, state: &mut State, value: &str) -> (r: Self) {
        let t = match state.style.text.take(self) {
            Some(t) => Text { font: value.to_owned(), text: t.text },
            None => Text { font: value.to_owned(), text: String::new() },
        };
        state.style.text.insert(self, t);
        state.needs_relayout = true;
        state.needs_redraw = true;
        self
    }

    fn set_next_focus(self, state: &mut State, value: Entity) -> (r: Self) {
        let fo = match state.style.focus_order.get(self) {
            Some(f) => FocusOrder { next: value, prev: f.prev },
            None => FocusOrder { next: value, prev: Entity::null() },
        };
        state.style.focus_order.insert(self, fo);
        state.needs_relayout = true;
        state.needs_redraw = true;
        self
    }

    fn set_prev_focus(self, state: &mut State, value: Entity) -> (r: Self) {
        let fo = match state.style.focus_order.get(self) {
            Some(f) => FocusOrder { next: f.next, prev: value },
            None => FocusOrder { next: Entity::null(), prev: value },
        };
        state.style.focus_order.insert(self, fo);
        state.needs_relayout = true;
        state.needs_redraw = true;
        self
    }

    fn set_focus_order(self, state: &mut State, next: Entity, prev: Entity) -> (r: Self) {
        let fo = match state.style.focus_order.get(self) {
            Some(f) => FocusOrder { next, prev },
            None => FocusOrder { next, prev },
        };
        state.style.focus_order.insert(self, fo);
        state.needs_relayout = true;
        state.needs_redraw = true;
        self
    }
}

/// Property getters: the value stored for the entity, or the property's default
/// where none is. They change nothing.
pub trait PropGet: Sized {
    /// The entity whose properties are read.
    spec fn ent(self) -> Entity;

    fn is_enabled(self, state: &mut State) -> (r: bool)
        ensures
            *final(state) == *old(state),
            r == old(state).style.pseudo_classes.value_or(self.ent().0, PseudoClasses::none()).enabled,
    ;

    fn is_disabled(self, state: &mut State) -> (r: bool)
        ensures
            *final(state) == *old(state),
            r == old(state).style.pseudo_classes.value_or(self.ent().0, PseudoClasses::none()).disabled,
    ;

    fn is_checked(self, state: &mut State) -> (r: bool)
        ensures
            *final(state) == *old(state),
            r == old(state).style.pseudo_classes.value_or(self.ent().0, PseudoClasses::none()).checked,
    ;

    fn is_over(self, state: &mut State) -> (r: bool)
        ensures
            *final(state) == *old(state),
            r == old(state).style.pseudo_classes.value_or(self.ent().0, PseudoClasses::none()).over,
    ;

    fn is_active(self, state: &mut State) -> (r: bool)
        ensures
            *final(state) == *old(state),
            r == old(state).style.pseudo_classes.value_or(self.ent().0, PseudoClasses::none()).active,
    ;

    fn is_focused(self, state: &mut State) -> (r: bool)
        ensures
            *final(state) == *old(state),
            r == old(state).style.pseudo_classes.value_or(self.ent().0, PseudoClasses::none()).focus,
    ;

    fn get_display(&self, state: &mut State) -> (r: Display)
        ensures
            *final(state) == *old(state),
            r == old(state).style.display.value_or(self.ent().0, Display::Flexbox),
    ;

    fn get_position(&self, state: &mut State) -> (r: Position)
        ensures
            *final(state) == *old(state),
            r == old(state).style.position.value_or(self.ent().0, Position::Relative),
    ;

    fn get_left(&self, state: &mut State) -> (r: Length)
        ensures
            *final(state) == *old(state),
            r == old(state).style.left.value_or(self.ent().0, Length::Auto),
    ;

    fn get_right(&self, state: &mut State) -> (r: Length)
        ensures
            *final(state) == *old(state),
            r == old(state).style.right.value_or(self.ent().0, Length::Auto),
    ;

    fn get_top(&self, state: &mut State) -> (r: Length)
        ensures
            *final(state) == *old(state),
            r == old(state).style.top.value_or(self.ent().0, Length::Auto),
    ;

    fn get_bottom(&self, state: &mut State) -> (r: Length)
        ensures
            *final(state) == *old(state),
            r == old(state).style.bottom.value_or(self.ent().0, Length::Auto),
    ;

    fn get_width(&self, state: &mut State) -> (r: Length)
        ensures
            *final(state) == *old(state),
            r == old(state).style.width.value_or(self.ent().0, Length::Auto),
    ;

    fn get_height(&self, state: &mut State) -> (r: Length)
        ensures
            *final(state) == *old(state),
            r == old(state).style.height.value_or(self.ent().0, Length::Auto),
    ;

    fn get_min_width(&self, state: &mut State) -> (r: Length)
        ensures
            *final(state) == *old(state),
            r == old(state).style.min_width.value_or(self.ent().0, Length::Auto),
    ;

    fn get_max_width(&self, state: &mut State) -> (r: Length)
        ensures
            *final(state) == *old(state),
            r == old(state).style.max_width.value_or(self.ent().0, Length::Auto),
    ;

    fn get_min_height(&self, state: &mut State) -> (r: Length)
        ensures
            *final(state) == *old(state),
            r == old(state).style.min_height.value_or(self.ent().0, Length::Auto),
    ;

    fn get_max_height(&self, state: &mut State) -> (r: Length)
        ensures
            *final(state) == *old(state),
            r == old(state).style.max_height.value_or(self.ent().0, Length::Auto),
    ;

    fn get_margin_left(&self, state: &mut State) -> (r: Length)
        ensures
            *final(state) == *old(state),
            r == old(state).style.margin_left.value_or(self.ent().0, Length::Auto),
    ;

    fn get_margin_right(&self, state: &mut State) -> (r: Length)
        ensures
            *final(state) == *old(state),
            r == old(state).style.margin_right.value_or(self.ent().0, Length::Auto),
    ;

    fn get_margin_top(&self, state: &mut State) -> (r: Length)
        ensures
            *final(state) == *old(state),
            r == old(state).style.margin_top.value_or(self.ent().0, Length::Auto),
    ;

    fn get_margin_bottom(&self, state: &mut State) -> (r: Length)
        ensures
            *final(state) == *old(state),
            r == old(state).style.margin_bottom.value_or(self.ent().0, Length::Auto),
    ;

    fn get_padding_left(&self, state: &mut State) -> (r: Length)
        ensures
            *final(state) == *old(state),
            r == old(state).style.padding_left.value_or(self.ent().0, Length::Auto),
    ;

    fn get_padding_right(&self, state: &mut State) -> (r: Length)
        ensures
            *final(state) == *old(state),
            r == old(state).style.padding_right.value_or(self.ent().0, Length::Auto),
    ;

    fn get_padding_top(&self, state: &mut State) -> (r: Length)
        ensures
            *final(state) == *old(state),
            r == old(state).style.padding_top.value_or(self.ent().0, Length::Auto),
    ;

    fn get_padding_bottom(&self, state: &mut State) -> (r: Length)
        ensures
            *final(state) == *old(state),
            r == old(state).style.padding_bottom.value_or(self.ent().0, Length::Auto),
    ;

    fn get_border_width(&self, state: &mut State) -> (r: Length)
        ensures
            *final(state) == *old(state),
            r == old(state).style.border_width.value_or(self.ent().0, Length::Auto),
    ;

    fn get_flex_direction(&self, state: &mut State) -> (r: FlexDirection)
        ensures
            *final(state) == *old(state),
            r == old(state).style.flex_direction.value_or(self.ent().0, FlexDirection::Column),
    ;

    fn get_flex_basis(&self, state: &mut State) -> (r: Length)
        ensures
            *final(state) == *old(state),
            r == old(state).style.flex_basis.value_or(self.ent().0, Length::Auto),
    ;

    fn get_justify_content(&self, state: &mut State) -> (r: JustifyContent)
        ensures
            *final(state) == *old(state),
            r == old(state).style.justify_content.value_or(self.ent().0, JustifyContent::FlexStart),
    ;

    fn get_align_items(&self, state: &mut State) -> (r: AlignItems)
        ensures
            *final(state) == *old(state),
            r == old(state).style.align_items.value_or(self.ent().0, AlignItems::Stretch),
    ;

    fn get_flex_grow(&self, state: &mut State) -> (r: Scalar)
        ensures
            *final(state) == *old(state),
            r == old(state).style.flex_grow.value_or(self.ent().0, Scalar(0)),
    ;

    fn get_flex_shrink(&self, state: &mut State) -> (r: Scalar)
        ensures
            *final(state) == *old(state),
            r == old(state).style.flex_shrink.value_or(self.ent().0, Scalar(0)),
    ;

    fn get_align_self(&self, state: &mut State) -> (r: AlignSelf)
        ensures
            *final(state) == *old(state),
            r == old(state).style.align_self.value_or(self.ent().0, AlignSelf::Stretch),
    ;

    fn get_tooltip(&self, state: &mut State) -> (r: String)
        ensures
            *final(state) == *old(state),
            r@ == (if old(state).style.tooltip@.contains_key(self.ent().0) {
                old(state).style.tooltip@[self.ent().0]@
            } else {
                Seq::<char>::empty()
            }),
    ;

    fn get_text(&self, state: &mut State) -> (r: String)
        ensures
            *final(state) == *old(state),
            r@ == (if old(state).style.text@.contains_key(self.ent().0) {
                old(state).style.text@[self.ent().0].text@
            } else {
                Seq::<char>::empty()
            }),
    ;
}

impl PropGet for Entity {
    open spec fn ent(self) -> Entity {
        self
    }

    fn is_enabled(self, state: &mut State) -> (r: bool) {
        match state.style.pseudo_classes.get(self) {
            Some(pc) => pc.enabled,
            None => false,
        }
    }

    fn is_disabled(self, state: &mut State) -> (r: bool) {
        match state.style.pseudo_classes.get(self) {
            Some(pc) => pc.disabled,
            None => false,
        }
    }

    fn is_checked(self, state: &mut State) -> (r: bool) {
        match state.style.pseudo_classes.get(self) {
            Some(pc) => pc.checked,
            None => false,
        }
    }

    fn is_over(self, state: &mut State) -> (r: bool) {
        match state.style.pseudo_classes.get(self) {
            Some(pc) => pc.over,
            None => false,
        }
    }

    fn is_active(self, state: &mut State) -> (r: bool) {
        match state.style.pseudo_classes.get(self) {
            Some(pc) => pc.active,
            None => false,
        }
    }

    fn is_focused(self, state: &mut State) -> (r: bool) {
        match state.style.pseudo_classes.get(self) {
            Some(pc) => pc.focus,
            None => false,
        }
    }

    fn get_display(&self, state: &mut State) -> (r: Display) {
        match state.style.display.get(*self) {
            Some(v) => *v,
            None => Display::default(),
        }
    }

    fn get_position(&self, state: &mut State) -> (r: Position) {
        match state.style.position.get(*self) {
            Some(v) => *v,
            None => Position::default(),
        }
    }

    fn get_left(&self, state: &mut State) -> (r: Length) {
        match state.style.left.get(*self) {
            Some(v) => *v,
            None => Length::default(),
        }
    }

    fn get_right(&self, state: &mut State) -> (r: Length) {
        match state.style.right.get(*self) {
            Some(v) => *v,
            None => Length::default(),
        }
    }

    fn get_top(&self, state: &mut State) -> (r: Length) {
        match state.style.top.get(*self) {
            Some(v) => *v,
            None => Length::default(),
        }
    }

    fn get_bottom(&self, state: &mut State) -> (r: Length) {
        match state.style.bottom.get(*self) {
            Some(v) => *v,
            None => Length::default(),
        }
    }

    fn get_width(&self, state: &mut State) -> (r: Length) {
        match state.style.width.get(*self) {
            Some(v) => *v,
            None => Length::default(),
        }
    }

    fn get_height(&self, state: &mut State) -> (r: Length) {
        match state.style.height.get(*self) {
            Some(v) => *v,
            None => Length::default(),
        }
    }

    fn get_min_width(&self, state: &mut State) -> (r: Length) {
        match state.style.min_width.get(*self) {
            Some(v) => *v,
            None => Length::default(),
        }
    }

    fn get_max_width(&self, state: &mut State) -> (r: Length) {
        match state.style.max_width.get(*self) {
            Some(v) => *v,
            None => Length::default(),
        }
    }

    fn get_min_height(&self, state: &mut State) -> (r: Length) {
        match state.style.min_height.get(*self) {
            Some(v) => *v,
            None => Length::default(),
        }
    }

    fn get_max_height(&self, state: &mut State) -> (r: Length) {
        match state.style.max_height.get(*self) {
            Some(v) => *v,
            None => Length::default(),
        }
    }

    fn get_margin_left(&self, state: &mut State) -> (r: Length) {
        match state.style.margin_left.get(*self) {
            Some(v) => *v,
            None => Length::default(),
        }
    }

    fn get_margin_right(&self, state: &mut State) -> (r: Length) {
        match state.style.margin_right.get(*self) {
            Some(v) => *v,
            None => Length::default(),
        }
    }

    fn get_margin_top(&self, state: &mut State) -> (r: Length) {
        match state.style.margin_top.get(*self) {
            Some(v) => *v,
            None => Length::default(),
        }
    }

    fn get_margin_bottom(&self, state: &mut State) -> (r: Length) {
        match state.style.margin_bottom.get(*self) {
            Some(v) => *v,
            None => Length::default(),
        }
    }

    fn get_padding_left(&self, state: &mut State) -> (r: Length) {
        match state.style.padding_left.get(*self) {
            Some(v) => *v,
            None => Length::default(),
        }
    }

    fn get_padding_right(&self, state: &mut State) -> (r: Length) {
        match state.style.padding_right.get(*self) {
            Some(v) => *v,
            None => Length::default(),
        }
    }

    fn get_padding_top(&self, state: &mut State) -> (r: Length) {
        match state.style.padding_top.get(*self) {
            Some(v) => *v,
            None => Length::default(),
        }
    }

    fn get_padding_bottom(&self, state: &mut State) -> (r: Length) {
        match state.style.padding_bottom.get(*self) {
            Some(v) => *v,
            None => Length::default(),
        }
    }

    fn get_border_width(&self, state: &mut State) -> (r: Length) {
        match state.style.border_width.get(*self) {
            Some(v) => *v,
            None => Length::default(),
        }
    }

    fn get_flex_direction(&self, state: &mut State) -> (r: FlexDirection) {
        match state.style.flex_direction.get(*self) {
            Some(v) => *v,
            None => FlexDirection::default(),
        }
    }

    fn get_flex_basis(&self, state: &mut State) -> (r: Length) {
        match state.style.flex_basis.get(*self) {
            Some(v) => *v,
            None => Length::default(),
        }
    }

    fn get_justify_content(&self, state: &mut State) -> (r: JustifyContent) {
        match state.style.justify_content.get(*self) {
            Some(v) => *v,
            None => JustifyContent::default(),
        }
    }

    fn get_align_items(&self, state: &mut State) -> (r: AlignItems) {
        match state.style.align_items.get(*self) {
            Some(v) => *v,
            None => AlignItems::default(),
        }
    }

    fn get_flex_grow(&self, state: &mut State) -> (r: Scalar) {
        match state.style.flex_grow.get(*self) {
            Some(v) => *v,
            None => Scalar::default(),
        }
    }

    fn get_flex_shrink(&self, state: &mut State) -> (r: Scalar) {
        match state.style.flex_shrink.get(*self) {
            Some(v) => *v,
            None => Scalar::default(),
        }
    }

    fn get_align_self(&self, state: &mut State) -> (r: AlignSelf) {
        match state.style.align_self.get(*self) {
            Some(v) => *v,
            None => AlignSelf::default(),
        }
    }

    fn get_tooltip(&self, state: &mut State) -> (r: String) {
        match state.style.tooltip.get(*self) {
            Some(t) => t.clone(),
            None => String::new(),
        }
    }

    fn get_text(&self, state: &mut State) -> (r: String) {
        match state.style.text.get(*self) {
            Some(t) => t.text.clone(),
            None => String::new(),
        }
    }
}

/// Adds `name` to the entity's classes unless it is there already.
fn add_class(state: &mut State, entity: Entity, name: &str)
    ensures
        final(state).style.classes@.contains_key(entity.0),
        final(state).style.classes@ == old(state).style.classes@.insert(entity.0, final(state).style.classes@[entity.0]),
        class_names(final(state).style.classes@[entity.0]@) == {
            let before = if old(state).style.classes@.contains_key(entity.0) {
                class_names(old(state).style.classes@[entity.0]@)
            } else {
                Seq::<Seq<char>>::empty()
            };
            if before.contains(name@) { before } else { before.push(name@) }
        },
        *final(state) == (State { style: Style { classes: final(state).style.classes, ..old(state).style }, ..*old(state) }),
{
    let mut list = match state.style.classes.take(entity) {
        Some(list) => list,
        None => Vec::new(),
    };
    let ghost before = class_names(list@);
    let owned = name.to_owned();
    let mut found = false;
    let mut i: usize = 0;
    while i < list.len()
        invariant
            0 <= i <= list@.len(),
            class_names(list@) == before,
            found == (exists|j: int| 0 <= j < i && list@[j]@ == name@),
            owned@ == name@,
        decreases list.len() - i,
    {
        if list[i] == owned {
            found = true;
        }
        i = i + 1;
    }
    proof {
        if found {
            let j = choose|j: int| 0 <= j < i && list@[j]@ == name@;
            assert(before[j] == name@);
        } else {
            assert forall|j: int| 0 <= j < before.len() implies before[j] != name@ by {
                assert(before[j] == list@[j]@);
            }
        }
    }
    if !found {
        list.push(owned);
        proof {
            assert(class_names(list@) =~= before.push(name@));
        }
    }
    state.style.classes.insert(entity, list);
}

} // verus!
