use audio_nodes::bus::MessageBus;
use audio_nodes::{ElementId, Event, InteractionContext, Message, MouseButton, NodeEvent, PointerState, WindowEvent, ZOrderChange};

fn id(index: u32) -> ElementId {
    ElementId::new(index)
}

#[test]
fn null_and_root_handles() {
    assert!(ElementId::null().is_null());
    assert!(!ElementId::root().is_null());
    assert_eq!(ElementId::null().index(), None);
    assert_eq!(ElementId::root().index(), Some(0));
    assert_eq!(id(17).index(), Some(17));
    assert_ne!(ElementId::null(), ElementId::root());
}

#[test]
fn pointer_starts_over_the_root_with_nothing_captured() {
    let pointer = PointerState::new();
    assert!(pointer.captured.is_null());
    assert_eq!(pointer.hovered, ElementId::root());
    assert_eq!(pointer.target(), ElementId::root());
}

#[test]
fn capture_replaces_the_holder() {
    let mut pointer = PointerState::new();
    pointer.capture(id(3));
    assert_eq!(pointer.captured, id(3));
    pointer.capture(id(4));
    assert_eq!(pointer.captured, id(4));
}

#[test]
fn release_by_the_holder_ends_the_capture() {
    let mut pointer = PointerState::new();
    pointer.capture(id(3));
    pointer.release(id(3));
    assert!(pointer.captured.is_null());
}

#[test]
fn release_by_a_stranger_is_ignored() {
    let mut pointer = PointerState::new();
    pointer.capture(id(3));
    pointer.release(id(4));
    assert_eq!(pointer.captured, id(3));
    pointer.release(ElementId::null());
    assert_eq!(pointer.captured, id(3));
}

#[test]
fn capture_decides_where_pointer_input_goes() {
    let mut pointer = PointerState::new();
    pointer.set_hovered(id(5));
    assert_eq!(pointer.target(), id(5));
    pointer.capture(id(2));
    assert_eq!(pointer.target(), id(2));
    pointer.set_hovered(id(6));
    assert_eq!(pointer.target(), id(2));
    assert_eq!(pointer.hovered, id(6));
    pointer.release(id(2));
    assert_eq!(pointer.target(), id(6));
}

#[test]
fn event_builder_sets_routing() {
    let event = Event::new(Message::Node(NodeEvent::ConnectInput));
    assert!(event.origin.is_null());
    assert!(event.target.is_null());
    let event = event.target(id(2)).origin(id(1));
    assert_eq!(event.origin, id(1));
    assert_eq!(event.target, id(2));
    assert_eq!(event.message, Message::Node(NodeEvent::ConnectInput));
}

#[test]
fn bus_delivers_first_in_first_out() {
    let mut bus = MessageBus::new();
    assert!(bus.is_empty());
    assert_eq!(bus.next_event(), None);
    bus.emit(id(1), id(2), Message::Node(NodeEvent::ConnectInput));
    bus.emit_to_root(id(1), Message::Window(WindowEvent::Redraw));
    bus.insert_event(Event::new(Message::Node(NodeEvent::Disconnect)).target(id(3)));
    assert_eq!(bus.len(), 3);
    assert_eq!(
        bus.next_event(),
        Some(Event { origin: id(1), target: id(2), message: Message::Node(NodeEvent::ConnectInput) })
    );
    assert_eq!(
        bus.next_event(),
        Some(Event {
            origin: id(1),
            target: ElementId::root(),
            message: Message::Window(WindowEvent::Redraw),
        })
    );
    assert_eq!(
        bus.next_event(),
        Some(Event {
            origin: ElementId::null(),
            target: id(3),
            message: Message::Node(NodeEvent::Disconnect),
        })
    );
    assert_eq!(bus.next_event(), None);
    assert!(bus.is_empty());
}

#[test]
fn context_records_requests() {
    let mut ctx = InteractionContext::new();
    assert!(ctx.captured().is_null());
    assert_eq!(ctx.hovered(), ElementId::root());
    ctx.set_hovered(id(9));
    ctx.capture(id(4));
    ctx.request_redraw(id(4));
    ctx.emit(id(4), id(9), Message::Window(WindowEvent::MouseDown(MouseButton::Left)));
    ctx.set_z_order(id(4), 1);
    ctx.set_z_order(id(4), 0);
    assert_eq!(ctx.captured(), id(4));
    assert_eq!(ctx.hovered(), id(9));
    assert_eq!(ctx.bus.len(), 2);
    assert_eq!(
        ctx.take_stacking(),
        vec![
            ZOrderChange { element: id(4), z_order: 1 },
            ZOrderChange { element: id(4), z_order: 0 },
        ]
    );
    assert!(ctx.take_stacking().is_empty());
    ctx.release(id(5));
    assert_eq!(ctx.captured(), id(4));
    ctx.release(id(4));
    assert!(ctx.captured().is_null());
}
