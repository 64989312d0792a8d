use audio_nodes::session::{Element, Session};
use audio_nodes::ui::{ConnectionWidget, InputSocket, OutputSocket};
use audio_nodes::{ElementId, Event, Message, MouseButton, NodeEvent, WindowEvent, ZOrderChange};

fn input(session: &Session, id: ElementId) -> InputSocket {
    match session.element(id) {
        Element::Input(socket) => socket,
        other => panic!("{:?} is not an input socket", other),
    }
}

fn output(session: &Session, id: ElementId) -> OutputSocket {
    match session.element(id) {
        Element::Output(socket) => socket,
        other => panic!("{:?} is not an output socket", other),
    }
}

fn wire(session: &Session, id: ElementId) -> ConnectionWidget {
    match session.element(id) {
        Element::Connection(wire) => wire,
        other => panic!("{:?} is not a wire", other),
    }
}

fn drag(session: &mut Session, from: ElementId, to: ElementId) {
    session.mouse_move(from);
    session.mouse_down(MouseButton::Left);
    session.mouse_move(to);
    session.mouse_up(MouseButton::Left);
}

#[test]
fn new_session_holds_only_the_root() {
    let session = Session::new();
    assert_eq!(session.len(), 1);
    assert_eq!(session.element(ElementId::root()), Element::Inert);
    assert_eq!(session.element(ElementId::null()), Element::Inert);
    assert_eq!(session.element(ElementId::new(5)), Element::Inert);
    assert!(session.captured().is_null());
    assert_eq!(session.hovered(), ElementId::root());
}

#[test]
fn elements_get_consecutive_handles() {
    let mut session = Session::new();
    assert_eq!(session.add_inert(), Some(ElementId::new(1)));
    assert_eq!(session.add_output_socket(), Some(ElementId::new(2)));
    assert_eq!(session.add_input_socket(), Some(ElementId::new(3)));
    assert_eq!(session.add_node(), Some(ElementId::new(5)));
    assert_eq!(session.add_view(), Some(ElementId::new(6)));
    assert_eq!(session.len(), 8);
    assert_eq!(session.element(ElementId::new(2)), Element::Output(OutputSocket::new()));
    let socket = input(&session, ElementId::new(3));
    assert_eq!(socket.connection, ElementId::new(4));
    assert!(socket.connected_output.is_null());
    assert_eq!(wire(&session, ElementId::new(4)), ConnectionWidget::new(ElementId::new(3)));
    match session.element(ElementId::new(6)) {
        Element::View(view) => assert_eq!(view.canvas, ElementId::new(7)),
        other => panic!("{:?} is not a view", other),
    }
    assert_eq!(session.element(ElementId::new(7)), Element::Inert);
}

#[test]
fn drag_from_output_to_input_connects() {
    let mut session = Session::new();
    let out = session.add_output_socket().unwrap();
    let inp = session.add_input_socket().unwrap();
    assert!(session.mouse_move(out));
    assert!(session.mouse_down(MouseButton::Left));
    assert_eq!(session.captured(), out);
    assert!(output(&session, out).connecting);
    assert!(session.mouse_move(inp));
    assert_eq!(session.captured(), out);
    assert_eq!(session.hovered(), inp);
    assert_eq!(output(&session, out).snapped_socket, inp);
    assert!(session.mouse_up(MouseButton::Left));
    let socket = input(&session, inp);
    assert_eq!(socket.connected_output, out);
    assert_eq!(wire(&session, socket.connection).output_socket, out);
    assert_eq!(wire(&session, socket.connection).input_socket, inp);
    assert!(!output(&session, out).connecting);
    assert!(session.captured().is_null());
}

#[test]
fn drag_from_input_to_output_connects() {
    let mut session = Session::new();
    let out = session.add_output_socket().unwrap();
    let inp = session.add_input_socket().unwrap();
    drag(&mut session, inp, out);
    let socket = input(&session, inp);
    assert_eq!(socket.connected_output, out);
    assert!(!socket.connecting);
    assert_eq!(wire(&session, socket.connection).output_socket, out);
    assert!(session.captured().is_null());
}

#[test]
fn drag_into_empty_space_connects_nothing() {
    let mut session = Session::new();
    let space = session.add_inert().unwrap();
    let out = session.add_output_socket().unwrap();
    let inp = session.add_input_socket().unwrap();
    drag(&mut session, out, space);
    assert_eq!(input(&session, inp), {
        let mut fresh = InputSocket::new();
        fresh.connection = ElementId::new(inp.0 + 1);
        fresh
    });
    assert!(wire(&session, ElementId::new(inp.0 + 1)).output_socket.is_null());
    assert!(!output(&session, out).connecting);
    assert!(session.captured().is_null());
    drag(&mut session, out, ElementId::root());
    assert!(input(&session, inp).connected_output.is_null());
    drag(&mut session, inp, space);
    assert!(input(&session, inp).connected_output.is_null());
    assert!(!input(&session, inp).connecting);
    assert!(session.captured().is_null());
}

#[test]
fn sockets_of_the_same_kind_do_not_connect() {
    let mut session = Session::new();
    let out_a = session.add_output_socket().unwrap();
    let out_b = session.add_output_socket().unwrap();
    let in_a = session.add_input_socket().unwrap();
    let in_b = session.add_input_socket().unwrap();
    drag(&mut session, out_a, out_b);
    drag(&mut session, in_a, in_b);
    drag(&mut session, out_a, out_a);
    drag(&mut session, in_a, in_a);
    assert!(input(&session, in_a).connected_output.is_null());
    assert!(input(&session, in_b).connected_output.is_null());
    assert!(session.captured().is_null());
}

#[test]
fn one_output_may_feed_several_inputs() {
    let mut session = Session::new();
    let out = session.add_output_socket().unwrap();
    let in_a = session.add_input_socket().unwrap();
    let in_b = session.add_input_socket().unwrap();
    drag(&mut session, out, in_a);
    drag(&mut session, out, in_b);
    assert_eq!(input(&session, in_a).connected_output, out);
    assert_eq!(input(&session, in_b).connected_output, out);
}

#[test]
fn an_input_is_bound_to_one_output_at_a_time() {
    let mut session = Session::new();
    let out_a = session.add_output_socket().unwrap();
    let out_b = session.add_output_socket().unwrap();
    let inp = session.add_input_socket().unwrap();
    drag(&mut session, out_a, inp);
    drag(&mut session, out_b, inp);
    let socket = input(&session, inp);
    assert_eq!(socket.connected_output, out_b);
    assert_eq!(wire(&session, socket.connection).output_socket, out_b);
}

#[test]
fn pulling_the_wire_off_an_input_hands_it_to_the_output() {
    let mut session = Session::new();
    let space = session.add_inert().unwrap();
    let out = session.add_output_socket().unwrap();
    let inp = session.add_input_socket().unwrap();
    drag(&mut session, out, inp);
    session.mouse_move(inp);
    session.mouse_down(MouseButton::Left);
    assert_eq!(session.captured(), inp);
    assert!(input(&session, inp).connecting);
    assert!(session.hover(space));
    let socket = input(&session, inp);
    assert!(socket.connected_output.is_null());
    assert!(!socket.connecting);
    assert!(wire(&session, socket.connection).output_socket.is_null());
    assert!(output(&session, out).connecting);
    assert!(!output(&session, out).snapping);
    assert_eq!(session.captured(), out);
    assert_eq!(session.hovered(), space);
}

#[test]
fn a_pulled_wire_can_be_dropped_on_another_input() {
    let mut session = Session::new();
    let out = session.add_output_socket().unwrap();
    let in_a = session.add_input_socket().unwrap();
    let in_b = session.add_input_socket().unwrap();
    drag(&mut session, out, in_a);
    session.mouse_move(in_a);
    session.mouse_down(MouseButton::Left);
    session.mouse_move(in_b);
    assert_eq!(session.captured(), out);
    session.mouse_up(MouseButton::Left);
    assert!(input(&session, in_a).connected_output.is_null());
    assert_eq!(input(&session, in_b).connected_output, out);
    assert!(session.captured().is_null());
}

#[test]
fn try_snap_in_a_session_reaches_only_the_asker() {
    let mut session = Session::new();
    let out = session.add_output_socket().unwrap();
    let inp = session.add_input_socket().unwrap();
    let other = session.add_input_socket().unwrap();
    let sent = session.send(Event {
        origin: out,
        target: inp,
        message: Message::Node(NodeEvent::TrySnap(out, inp)),
    });
    assert_eq!(sent, Some(false));
    assert_eq!(output(&session, out).snapped_socket, inp);
    assert!(input(&session, inp).snapped_socket.is_null());
    assert!(input(&session, other).snapped_socket.is_null());
}

#[test]
fn events_for_absent_elements_are_dropped() {
    let mut session = Session::new();
    let out = session.add_output_socket().unwrap();
    let inp = session.add_input_socket().unwrap();
    let before = input(&session, inp);
    let sent = session.send(Event {
        origin: out,
        target: ElementId::null(),
        message: Message::Node(NodeEvent::ConnectOutput),
    });
    assert_eq!(sent, Some(false));
    let sent = session.send(Event {
        origin: inp,
        target: ElementId::new(99),
        message: Message::Window(WindowEvent::MouseDown(MouseButton::Left)),
    });
    assert_eq!(sent, Some(false));
    assert_eq!(input(&session, inp), before);
    assert_eq!(output(&session, out), OutputSocket::new());
    assert!(session.captured().is_null());
    assert!(!session.flush_events());
}

#[test]
fn self_addressed_confirmation_is_ignored_in_a_session() {
    let mut session = Session::new();
    let inp = session.add_input_socket().unwrap();
    let sent = session.send(Event {
        origin: inp,
        target: inp,
        message: Message::Node(NodeEvent::ConnectOutput),
    });
    assert_eq!(sent, None);
    assert!(input(&session, inp).connected_output.is_null());
}

#[test]
fn messages_that_would_upset_the_records_are_refused() {
    let mut session = Session::new();
    let out = session.add_output_socket().unwrap();
    let inp = session.add_input_socket().unwrap();
    let link = input(&session, inp).connection;
    drag(&mut session, out, inp);
    let forged = [
        Event { origin: inp, target: link, message: Message::Node(NodeEvent::Disconnect) },
        Event { origin: out, target: link, message: Message::Node(NodeEvent::ConnectSockets(inp)) },
        Event { origin: link, target: inp, message: Message::Node(NodeEvent::ConnectOutput) },
        Event { origin: ElementId::null(), target: inp, message: Message::Node(NodeEvent::ConnectOutput) },
    ];
    for event in forged {
        assert_eq!(session.send(event), None);
    }
    assert_eq!(input(&session, inp).connected_output, out);
    assert_eq!(wire(&session, link).output_socket, out);
}

#[test]
fn a_sent_connection_request_binds_like_a_drag() {
    let mut session = Session::new();
    let out = session.add_output_socket().unwrap();
    let inp = session.add_input_socket().unwrap();
    let link = input(&session, inp).connection;
    let sent = session.send(Event {
        origin: out,
        target: inp,
        message: Message::Node(NodeEvent::ConnectOutput),
    });
    assert_eq!(sent, Some(false));
    assert_eq!(input(&session, inp).connected_output, out);
    assert_eq!(wire(&session, link).output_socket, out);
    let sent = session.send(Event {
        origin: out,
        target: inp,
        message: Message::Node(NodeEvent::Disconnect),
    });
    assert_eq!(sent, Some(false));
    assert!(input(&session, inp).connected_output.is_null());
    assert!(wire(&session, link).output_socket.is_null());
}

#[test]
fn wire_names_the_peer_of_its_owner_after_every_input() {
    let mut session = Session::new();
    let space = session.add_inert().unwrap();
    let out_a = session.add_output_socket().unwrap();
    let out_b = session.add_output_socket().unwrap();
    let in_a = session.add_input_socket().unwrap();
    let in_b = session.add_input_socket().unwrap();
    let places = [space, out_a, out_b, in_a, in_b, ElementId::root()];
    let mut step = 0usize;
    for round in 0..60usize {
        let place = places[(round * 7 + step) % places.len()];
        match round % 4 {
            0 => {
                session.mouse_move(place);
            }
            1 => {
                session.mouse_down(MouseButton::Left);
            }
            2 => {
                session.hover(place);
            }
            _ => {
                session.mouse_up(MouseButton::Left);
            }
        }
        step += round % 3;
        for socket_id in [in_a, in_b] {
            let socket = input(&session, socket_id);
            let link = wire(&session, socket.connection);
            assert_eq!(link.output_socket, socket.connected_output);
            assert_eq!(link.input_socket, socket_id);
            assert_ne!(socket.connected_output, socket_id);
            assert!(
                socket.connected_output.is_null()
                    || socket.connected_output == out_a
                    || socket.connected_output == out_b
            );
        }
    }
}

#[test]
fn redraw_is_reported_only_when_asked_for() {
    let mut session = Session::new();
    let space = session.add_inert().unwrap();
    let out = session.add_output_socket().unwrap();
    assert!(!session.hover(space));
    assert!(!session.mouse_down(MouseButton::Left));
    assert!(!session.mouse_up(MouseButton::Left));
    assert!(!session.mouse_move(space));
    assert!(session.mouse_move(out));
    assert!(session.mouse_down(MouseButton::Left));
    assert!(!session.hover(out));
}

#[test]
fn node_drag_captures_and_releases() {
    let mut session = Session::new();
    let node = session.add_node().unwrap();
    session.mouse_move(node);
    assert!(!session.mouse_down(MouseButton::Left));
    assert_eq!(session.captured(), node);
    assert!(session.mouse_move(ElementId::root()));
    assert_eq!(session.captured(), node);
    session.mouse_up(MouseButton::Left);
    assert!(session.captured().is_null());
    match session.element(node) {
        Element::Node(widget) => assert!(!widget.moving),
        other => panic!("{:?} is not a node", other),
    }
}

#[test]
fn view_pan_captures_and_releases() {
    let mut session = Session::new();
    let view = session.add_view().unwrap();
    session.mouse_move(view);
    session.mouse_down(MouseButton::Middle);
    assert_eq!(session.captured(), view);
    assert!(session.mouse_move(ElementId::root()));
    session.mouse_up(MouseButton::Middle);
    assert!(session.captured().is_null());
}

#[test]
fn dragged_socket_is_raised_and_lowered_again() {
    let mut session = Session::new();
    let out = session.add_output_socket().unwrap();
    let inp = session.add_input_socket().unwrap();
    assert!(session.take_stacking().is_empty());
    drag(&mut session, out, inp);
    assert_eq!(
        session.take_stacking(),
        vec![
            ZOrderChange { element: out, z_order: 1 },
            ZOrderChange { element: out, z_order: 0 },
        ]
    );
    assert!(session.take_stacking().is_empty());
}

#[test]
fn self_addressed_request_is_ignored_in_a_session() {
    let mut session = Session::new();
    let out = session.add_output_socket().unwrap();
    let inp = session.add_input_socket().unwrap();
    let sent = session.send(Event {
        origin: out,
        target: out,
        message: Message::Node(NodeEvent::ConnectInput),
    });
    assert_eq!(sent, Some(false));
    assert_eq!(output(&session, out), OutputSocket::new());
    assert!(input(&session, inp).connected_output.is_null());
    assert!(session.captured().is_null());
}
