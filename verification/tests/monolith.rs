use monolith_core::monolith::Monolith;
use monolith_core::monolith::MonolithBuilder;
use monolith_core::monolith::DEFAULT_PORT;
use monolith_core::types::ClientEvent;
use monolith_core::types::OnClick;

fn click(name: &str) -> ClientEvent {
    ClientEvent::OnClick(OnClick { id: name.to_string(), name: name.to_string() })
}

#[test]
fn the_default_port() {
    let monolith: Monolith<&str> = MonolithBuilder::new().build();
    assert_eq!(monolith.port(), 33445);
    assert_eq!(DEFAULT_PORT, 33445);
}

#[test]
fn a_chosen_port() {
    let monolith: Monolith<&str> = MonolithBuilder::new().port(8080).build();
    assert_eq!(monolith.port(), 8080);
    let again: Monolith<&str> = MonolithBuilder::new().port(1).port(2).build();
    assert_eq!(again.port(), 2);
}

#[test]
fn ids_count_up_from_zero() {
    let mut monolith: Monolith<&str> = MonolithBuilder::new().build();
    assert!(monolith.get_writers().is_empty());
    assert_eq!(monolith.accept_client("a"), Some(0));
    assert_eq!(monolith.accept_client("b"), Some(1));
    assert_eq!(monolith.accept_client("c"), Some(2));
    assert_eq!(monolith.get_writers().len(), 3);
    assert_eq!(monolith.get_writers().get(&1), Some(&"b"));
}

#[test]
fn an_id_is_not_given_again_after_its_session_has_left() {
    let mut monolith: Monolith<&str> = MonolithBuilder::new().build();
    assert_eq!(monolith.accept_client("a"), Some(0));
    assert_eq!(monolith.recv_next(0, ClientEvent::Disconnected), Some(("a", ClientEvent::Disconnected)));
    assert_eq!(monolith.accept_client("b"), Some(1));
    assert_eq!(monolith.get_writers().len(), 1);
    assert_eq!(monolith.get_writers().get(&0), None);
}

#[test]
fn an_event_comes_with_the_handle_of_its_session() {
    let mut monolith: Monolith<&str> = MonolithBuilder::new().build();
    monolith.accept_client("a");
    monolith.accept_client("b");
    assert_eq!(monolith.recv_next(1, click("x")), Some(("b", click("x"))));
    assert_eq!(monolith.recv_next(0, click("y")), Some(("a", click("y"))));
    assert_eq!(monolith.get_writers().len(), 2);
}

#[test]
fn an_event_of_an_unknown_session_is_dropped() {
    let mut monolith: Monolith<&str> = MonolithBuilder::new().build();
    assert_eq!(monolith.recv_next(0, click("x")), None);
    monolith.accept_client("a");
    assert_eq!(monolith.recv_next(5, click("x")), None);
    assert_eq!(monolith.recv_next(5, ClientEvent::Disconnected), None);
    assert_eq!(monolith.get_writers().len(), 1);
}

#[test]
fn disconnected_is_handed_on_once_and_nothing_after_it() {
    let mut monolith: Monolith<&str> = MonolithBuilder::new().build();
    monolith.accept_client("a");
    monolith.accept_client("b");
    assert_eq!(monolith.recv_next(0, ClientEvent::Disconnected), Some(("a", ClientEvent::Disconnected)));
    assert_eq!(monolith.recv_next(0, ClientEvent::Disconnected), None);
    assert_eq!(monolith.recv_next(0, click("late")), None);
    assert_eq!(monolith.recv_next(1, click("x")), Some(("b", click("x"))));
}

#[test]
fn the_events_of_a_session_keep_their_order_across_interleavings() {
    let mut monolith: Monolith<usize> = MonolithBuilder::new().build();
    let a = monolith.accept_client(100).unwrap();
    let b = monolith.accept_client(200).unwrap();
    let arrivals = vec![
        (a, click("e1")),
        (b, click("f1")),
        (b, click("f2")),
        (a, click("e2")),
        (b, ClientEvent::Disconnected),
        (a, click("e3")),
        (b, click("f3")),
    ];
    let mut delivered = Vec::new();
    for (id, event) in arrivals {
        if let Some((_, event)) = monolith.recv_next(id, event) {
            delivered.push((id, event));
        }
    }
    let of = |id: usize| -> Vec<ClientEvent> {
        delivered.iter().filter(|(from, _)| *from == id).map(|(_, e)| e.clone()).collect()
    };
    assert_eq!(of(a), vec![click("e1"), click("e2"), click("e3")]);
    assert_eq!(of(b), vec![click("f1"), click("f2"), ClientEvent::Disconnected]);
}
