use tuix_core::entity::Entity;
use tuix_core::prop::{PropGet, PropSet};
use tuix_core::entity::{AllocationError, MINIMUM_FREE_INDICES};
use tuix_core::state::{
    Event, GeometryChanged, LayoutBox, Pass, Propagation, State, StateError, WindowEvent,
    WindowWidget,
};
use tuix_core::style::{Color, Display, Length, Scalar, Visibility};

fn px(v: f32) -> Length {
    Length::Pixels(Scalar(v.to_bits()))
}

fn boxed(x: f32, y: f32, w: f32, h: f32) -> LayoutBox {
    LayoutBox {
        posx: Scalar(x.to_bits()),
        posy: Scalar(y.to_bits()),
        width: Scalar(w.to_bits()),
        height: Scalar(h.to_bits()),
    }
}

fn new_child(state: &mut State, parent: Entity) -> Entity {
    state.add(parent).unwrap()
}

/// Lowers the three flags, as the passes would.
fn settle(state: &mut State) {
    state.needs_restyle = false;
    state.needs_relayout = false;
    state.needs_redraw = false;
}

#[test]
fn new_state_holds_root() {
    let state = State::new();
    assert!(state.entity_manager.is_alive(Entity::root()));
    assert_eq!(state.hierarchy.get_num_children(Entity::root()), Some(0));
    assert!(!state.needs_restyle && !state.needs_relayout && !state.needs_redraw);
}

#[test]
fn geometry_property_raises_relayout_and_redraw() {
    let mut state = State::new();
    let a = new_child(&mut state, Entity::root());
    settle(&mut state);
    a.set_width(&mut state, px(100.0));
    assert!(state.needs_relayout);
    assert!(state.needs_redraw);
    assert!(!state.needs_restyle);
    assert_eq!(a.get_width(&mut state), px(100.0));
}

#[test]
fn paint_property_raises_redraw_only() {
    let mut state = State::new();
    let a = new_child(&mut state, Entity::root());
    settle(&mut state);
    a.set_font_color(&mut state, Color { r: 1, g: 2, b: 3, a: 255 });
    assert!(state.needs_redraw);
    assert!(!state.needs_relayout);
    assert!(!state.needs_restyle);
    a.set_background_color(&mut state, Color { r: 0, g: 0, b: 0, a: 255 })
        .set_border_radius(&mut state, px(4.0));
    assert!(!state.needs_relayout);
}

#[test]
fn pseudo_class_raises_restyle() {
    let mut state = State::new();
    let a = new_child(&mut state, Entity::root());
    settle(&mut state);
    assert!(!a.is_enabled(&mut state));
    a.set_enabled(&mut state, true);
    assert!(state.needs_restyle);
    assert!(!state.needs_relayout);
    assert!(a.is_enabled(&mut state));
    assert!(!a.is_disabled(&mut state));
    a.set_disabled(&mut state, true);
    assert!(a.is_disabled(&mut state));
    assert!(!a.is_enabled(&mut state));
    a.set_checked(&mut state, true).set_hover(&mut state, true);
    assert!(a.is_checked(&mut state));
    assert!(state.needs_relayout);
    assert!(!a.is_focused(&mut state));
    a.set_focus(&mut state, true).set_active(&mut state, true).set_over(&mut state, true);
    assert!(a.is_focused(&mut state));
    assert!(a.is_active(&mut state));
    assert!(a.is_over(&mut state));
}

#[test]
fn unset_properties_read_as_defaults() {
    let mut state = State::new();
    let a = new_child(&mut state, Entity::root());
    assert_eq!(a.get_display(&mut state), Display::Flexbox);
    assert_eq!(a.get_left(&mut state), Length::Auto);
    assert_eq!(a.get_flex_grow(&mut state), Scalar(0));
    assert_eq!(a.get_text(&mut state), "");
    assert_eq!(a.get_tooltip(&mut state), "");
}

#[test]
fn margin_and_padding_set_all_sides() {
    let mut state = State::new();
    let a = new_child(&mut state, Entity::root());
    a.set_margin(&mut state, px(3.0)).set_padding(&mut state, px(5.0));
    assert_eq!(a.get_margin_left(&mut state), px(3.0));
    assert_eq!(a.get_margin_bottom(&mut state), px(3.0));
    assert_eq!(a.get_padding_top(&mut state), px(5.0));
    assert_eq!(a.get_padding_right(&mut state), px(5.0));
    a.set_margin_top(&mut state, px(1.0));
    assert_eq!(a.get_margin_top(&mut state), px(1.0));
    assert_eq!(a.get_margin_left(&mut state), px(3.0));
}

#[test]
fn text_and_font_keep_each_other() {
    let mut state = State::new();
    let a = new_child(&mut state, Entity::root());
    a.set_font(&mut state, "icons").set_text(&mut state, "hello");
    assert_eq!(a.get_text(&mut state), "hello");
    a.set_font(&mut state, "sans");
    assert_eq!(a.get_text(&mut state), "hello");
    a.set_tooltip(&mut state, "tip");
    assert_eq!(a.get_tooltip(&mut state), "tip");
}

#[test]
fn classes_are_added_once() {
    let mut state = State::new();
    let a = new_child(&mut state, Entity::root());
    a.class(&mut state, "front").set_class(&mut state, "front").class(&mut state, "back");
    let list = state.style.classes.get(a).unwrap();
    assert_eq!(list.len(), 2);
    assert_eq!(list[0], "front");
    assert_eq!(list[1], "back");
}

#[test]
fn focus_order_fields() {
    let mut state = State::new();
    let a = new_child(&mut state, Entity::root());
    let b = new_child(&mut state, Entity::root());
    a.set_next_focus(&mut state, b);
    let fo = *state.style.focus_order.get(a).unwrap();
    assert_eq!(fo.next, b);
    assert!(fo.prev.is_null());
    a.set_prev_focus(&mut state, Entity::root());
    let fo = *state.style.focus_order.get(a).unwrap();
    assert_eq!(fo.next, b);
    assert_eq!(fo.prev, Entity::root());
    a.set_focus_order(&mut state, Entity::root(), b);
    let fo = *state.style.focus_order.get(a).unwrap();
    assert_eq!((fo.next, fo.prev), (Entity::root(), b));
}

#[test]
fn get_parent_through_props() {
    let mut state = State::new();
    let a = new_child(&mut state, Entity::root());
    let b = new_child(&mut state, a);
    assert_eq!(b.get_parent(&mut state), Some(a));
    b.set_visibility(&mut state, Visibility::Invisible);
    assert_eq!(*state.style.visibility.get(b).unwrap(), Visibility::Invisible);
}

#[test]
fn width_change_notifies_down() {
    let mut state = State::new();
    let a = new_child(&mut state, Entity::root());
    let child = new_child(&mut state, a);
    state.set_geometry(a, boxed(10.0, 10.0, 100.0, 20.0));
    state.set_geometry(child, boxed(10.0, 10.0, 50.0, 20.0));
    state.geometry_changed();
    state.event_queue.clear();
    state.set_geometry(a, boxed(10.0, 10.0, 150.0, 20.0));
    state.set_geometry(child, boxed(10.0, 10.0, 50.0, 20.0));
    state.geometry_changed();
    assert_eq!(state.event_queue.len(), 1);
    let ev = state.event_queue[0];
    assert_eq!(
        ev.message,
        WindowEvent::GeometryChanged(GeometryChanged { posx: false, posy: false, width: true, height: false })
    );
    assert_eq!(ev.target, a);
    assert_eq!(ev.propagation, Propagation::Down);
    // The records were cleared: nothing more to report.
    state.geometry_changed();
    assert_eq!(state.event_queue.len(), 1);
}

#[test]
fn first_layout_reports_placed_entities() {
    let mut state = State::new();
    let a = new_child(&mut state, Entity::root());
    state.set_geometry(a, boxed(0.0, 5.0, 0.0, 0.0));
    state.geometry_changed();
    assert_eq!(state.event_queue.len(), 1);
    assert_eq!(
        state.event_queue[0].message,
        WindowEvent::GeometryChanged(GeometryChanged { posx: false, posy: true, width: false, height: false })
    );
}

#[test]
fn dispatcher_orders_passes() {
    let mut state = State::new();
    let mut window = WindowWidget::new();
    state.needs_relayout = true;
    let passes = window.on_event(&mut state, Entity::root(), &Event::new(WindowEvent::Relayout));
    assert_eq!(passes, vec![Pass::ZOrdering, Pass::Transform, Pass::Visibility, Pass::Layout, Pass::Hover]);
    assert!(!state.needs_relayout);
    assert!(state.needs_redraw);
    state.needs_restyle = true;
    let passes = window.on_event(&mut state, Entity::root(), &Event::new(WindowEvent::Restyle));
    assert_eq!(passes, vec![Pass::Styles]);
    assert!(!state.needs_restyle);
    assert!(state.take_redraw());
    assert!(!state.needs_redraw);
    let passes = window.on_event(&mut state, Entity::root(), &Event::new(WindowEvent::Redraw));
    assert_eq!(passes, vec![Pass::Transform]);
    assert!(state.needs_redraw);
    let passes = window.on_event(&mut state, Entity::root(), &Event::new(WindowEvent::WindowClose));
    assert!(passes.is_empty());
}

#[test]
fn event_builders() {
    let ev = Event::new(WindowEvent::Redraw).target(Entity::root()).propagate(Propagation::All);
    assert_eq!(ev.target, Entity::root());
    assert_eq!(ev.propagation, Propagation::All);
    assert!(ev.origin.is_null());
    let mut state = State::new();
    state.insert_event(ev);
    assert_eq!(state.event_queue, vec![ev]);
}

#[test]
fn add_and_remove_through_state() {
    let mut state = State::new();
    let a = state.add(Entity::root()).unwrap();
    assert_eq!(a, Entity::new(1, 0));
    assert!(state.needs_restyle && state.needs_relayout && state.needs_redraw);
    let b = state.add(a).unwrap();
    assert_eq!(state.hierarchy.get_parent(b), Some(a));
    assert_eq!(state.remove(a), Err(StateError::HasChildren));
    assert_eq!(state.remove(Entity::root()), Err(StateError::Root));
    assert_eq!(state.remove(b), Ok(()));
    assert!(!state.entity_manager.is_alive(b));
    assert_eq!(state.hierarchy.get_num_children(a), Some(0));
    assert_eq!(state.remove(b), Err(StateError::NotAlive));
    assert_eq!(state.add(b), Err(StateError::NotAlive));
    assert_eq!(state.remove(a), Ok(()));
    assert_eq!(state.hierarchy.get_num_children(Entity::root()), Some(0));
}

#[test]
fn state_reuses_clean_slots() {
    let mut state = State::new();
    let mut all = Vec::new();
    for _ in 0..(MINIMUM_FREE_INDICES + 2) {
        all.push(state.add(Entity::root()).unwrap());
    }
    for e in &all {
        state.remove(*e).unwrap();
    }
    let reused = state.add(Entity::root()).unwrap();
    assert_eq!(reused.index(), Some(1));
    assert_eq!(reused.generation(), Some(1));
    assert_eq!(state.hierarchy.get_parent(reused), Some(Entity::root()));
    assert_eq!(state.hierarchy.get_num_children(reused), Some(0));
    assert_eq!(state.hierarchy.get_num_children(Entity::root()), Some(1));
}

#[test]
fn state_refuses_generation_overflow() {
    let mut state = State::new();
    let mut all = Vec::new();
    for _ in 0..(MINIMUM_FREE_INDICES + 2) {
        all.push(state.add(Entity::root()).unwrap());
    }
    for e in &all {
        state.remove(*e).unwrap();
    }
    let mut e = state.add(Entity::root()).unwrap();
    while e.generation() != Some(255) || e.index() != Some(1) {
        state.remove(e).unwrap();
        e = state.add(Entity::root()).unwrap();
    }
    assert_eq!(state.remove(e), Err(StateError::Allocation(AllocationError::GenerationOverflow)));
    assert_eq!(state.hierarchy.get_parent(e), Some(Entity::root()));
}
