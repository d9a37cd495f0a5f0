use monolith_core::gui::Item;
use monolith_core::gui::Text;
use monolith_core::transport::Command;
use monolith_core::transport::Inbound;
use monolith_core::transport::Phase;
use monolith_core::transport::Worker;
use monolith_core::types::ClientAction;
use monolith_core::types::ClientEvent;
use monolith_core::types::OnClick;
use monolith_core::types::OnKeyDown;
use monolith_core::types::OnTextChanged;
use monolith_core::types::Replace;

fn click(name: &str) -> ClientEvent {
    ClientEvent::OnClick(OnClick { id: name.to_string(), name: name.to_string() })
}

fn typed(value: &str) -> ClientEvent {
    ClientEvent::OnTextChanged(OnTextChanged {
        id: "t".to_string(),
        name: "t".to_string(),
        value: value.to_string(),
    })
}

fn key(code: &str) -> ClientEvent {
    ClientEvent::OnKeyDown(OnKeyDown { id: "k".to_string(), keycode: code.to_string() })
}

fn text(s: &str) -> Item {
    Item::Text(Text { text: s.to_string() })
}

fn active(id: usize) -> Worker {
    let mut worker = Worker::new(id);
    worker.upgraded();
    worker
}

#[test]
fn a_connection_begins_connecting_and_becomes_active() {
    let mut worker = Worker::new(7);
    assert_eq!(worker.id(), 7);
    assert_eq!(worker.phase(), Phase::Connecting);
    worker.upgraded();
    assert_eq!(worker.phase(), Phase::Active);
    worker.upgraded();
    assert_eq!(worker.phase(), Phase::Active);
}

#[test]
fn the_events_of_a_frame_are_passed_on_in_order() {
    let mut worker = active(3);
    let events = worker.handle_websocket(Inbound::Events(vec![click("e1"), typed("e2"), key("e3")]));
    assert_eq!(events, vec![(3, click("e1")), (3, typed("e2")), (3, key("e3"))]);
    assert_eq!(worker.phase(), Phase::Active);
}

#[test]
fn an_empty_frame_passes_nothing_on() {
    let mut worker = active(3);
    assert_eq!(worker.handle_websocket(Inbound::Events(vec![])), vec![]);
    assert_eq!(worker.phase(), Phase::Active);
}

#[test]
fn a_malformed_frame_is_dropped_and_the_session_lives() {
    let mut worker = active(1);
    assert_eq!(worker.handle_websocket(Inbound::Malformed), vec![]);
    assert_eq!(worker.phase(), Phase::Active);
    assert_eq!(worker.handle_websocket(Inbound::Control), vec![]);
    assert_eq!(worker.phase(), Phase::Active);
    assert_eq!(worker.handle_websocket(Inbound::Events(vec![click("a")])), vec![(1, click("a"))]);
}

#[test]
fn a_failed_read_ends_the_connection_with_one_disconnected() {
    let mut worker = active(5);
    assert_eq!(worker.handle_websocket(Inbound::Failed), vec![(5, ClientEvent::Disconnected)]);
    assert_eq!(worker.phase(), Phase::Disconnected);
    assert_eq!(worker.handle_websocket(Inbound::Failed), vec![]);
    assert_eq!(worker.handle_websocket(Inbound::Closed), vec![]);
    assert_eq!(worker.handle_websocket(Inbound::Events(vec![click("late")])), vec![]);
    assert_eq!(worker.writer_gone(), None);
    assert_eq!(worker.phase(), Phase::Disconnected);
}

#[test]
fn a_closed_connection_ends_with_one_disconnected() {
    let mut worker = active(6);
    assert_eq!(worker.handle_websocket(Inbound::Closed), vec![(6, ClientEvent::Disconnected)]);
    assert_eq!(worker.phase(), Phase::Disconnected);
}

#[test]
fn a_lost_writer_ends_the_connection_with_one_disconnected() {
    let mut worker = active(9);
    assert_eq!(worker.writer_gone(), Some((9, ClientEvent::Disconnected)));
    assert_eq!(worker.phase(), Phase::Disconnected);
    assert_eq!(worker.writer_gone(), None);
    worker.upgraded();
    assert_eq!(worker.phase(), Phase::Disconnected);
}

#[test]
fn nothing_happens_before_the_handshake_is_done() {
    let mut worker = Worker::new(2);
    assert_eq!(worker.handle_websocket(Inbound::Events(vec![click("early")])), vec![]);
    assert_eq!(worker.handle_websocket(Inbound::Closed), vec![]);
    assert_eq!(worker.handle_command(Command::Render(text("a"))), None);
    assert_eq!(worker.writer_gone(), None);
    assert_eq!(worker.phase(), Phase::Connecting);
}

#[test]
fn an_active_connection_renders() {
    let mut worker = active(4);
    assert_eq!(
        worker.handle_command(Command::Render(text("a"))),
        Some(vec![ClientAction::Replace(Replace { path: vec![], item: text("a") })])
    );
    assert_eq!(worker.handle_command(Command::Render(text("a"))), None);
    assert_eq!(
        worker.handle_command(Command::Render(text("b"))),
        Some(vec![ClientAction::Replace(Replace { path: vec![], item: text("b") })])
    );
}

#[test]
fn a_disconnected_connection_drops_commands() {
    let mut worker = active(4);
    worker.handle_command(Command::Render(text("a")));
    worker.handle_websocket(Inbound::Closed);
    assert_eq!(worker.handle_command(Command::Render(text("b"))), None);
}
