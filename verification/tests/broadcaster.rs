use exclave::unit::{UnitKind, UnitName};
use exclave::unitbroadcaster::{
    UnitBroadcaster, UnitCategoryEvent, UnitEvent, UnitStatus, UnitStatusEvent,
};

#[test]
fn every_subscriber_gets_every_event_in_order() {
    let mut broadcaster = UnitBroadcaster::new();
    let first = broadcaster.subscribe();
    let second = broadcaster.subscribe();
    assert_ne!(first, second);
    let name = UnitName::from_str("t1", UnitKind::Test).unwrap();
    let events = vec![
        UnitEvent::RescanStart,
        UnitEvent::Status(UnitStatusEvent::new_selected(&name)),
        UnitEvent::Category(UnitCategoryEvent::new(UnitKind::Test, "one test")),
        UnitEvent::RescanFinish,
    ];
    for event in &events {
        broadcaster.broadcast(event);
    }
    for subscriber in [second, first] {
        assert_eq!(broadcaster.pending(subscriber), 4);
        for event in &events {
            assert_eq!(broadcaster.receive(subscriber).as_ref(), Some(event));
        }
        assert_eq!(broadcaster.receive(subscriber), None);
        assert_eq!(broadcaster.pending(subscriber), 0);
    }
}

#[test]
fn a_subscriber_sees_only_what_came_after_it_subscribed() {
    let mut broadcaster = UnitBroadcaster::new();
    broadcaster.broadcast(&UnitEvent::RescanStart);
    let late = broadcaster.subscribe();
    assert_eq!(broadcaster.receive(late), None);
    broadcaster.broadcast(&UnitEvent::RescanFinish);
    assert_eq!(broadcaster.receive(late), Some(UnitEvent::RescanFinish));
}

#[test]
fn a_slow_subscriber_does_not_hold_up_the_others() {
    let mut broadcaster = UnitBroadcaster::new();
    let slow = broadcaster.subscribe();
    let quick = broadcaster.subscribe();
    broadcaster.broadcast(&UnitEvent::RescanStart);
    assert_eq!(broadcaster.receive(quick), Some(UnitEvent::RescanStart));
    broadcaster.broadcast(&UnitEvent::RescanFinish);
    assert_eq!(broadcaster.receive(quick), Some(UnitEvent::RescanFinish));
    assert_eq!(broadcaster.pending(slow), 2);
    assert_eq!(broadcaster.receive(slow), Some(UnitEvent::RescanStart));
}

#[test]
fn a_subscriber_that_left_receives_no_more() {
    let mut broadcaster = UnitBroadcaster::new();
    let gone = broadcaster.subscribe();
    let stays = broadcaster.subscribe();
    broadcaster.broadcast(&UnitEvent::RescanStart);
    broadcaster.unsubscribe(gone);
    broadcaster.unsubscribe(17);
    broadcaster.broadcast(&UnitEvent::RescanFinish);
    assert_eq!(broadcaster.pending(gone), 0);
    assert_eq!(broadcaster.receive(gone), None);
    assert_eq!(broadcaster.pending(stays), 2);
    assert_eq!(broadcaster.receive(17), None);
}

#[test]
fn the_labels_know_what_they_ask_for() {
    assert!(UnitStatus::LoadStarted.asks_load());
    assert!(UnitStatus::UpdateStarted.asks_load());
    assert!(!UnitStatus::UnloadStarted.asks_load());
    assert!(UnitStatus::UnloadStarted.asks_unload());
    assert!(UnitStatus::UnloadStarted.started());
    assert!(!UnitStatus::Selected.started());
    assert!(!UnitStatus::Active.asks_unload());
    assert_eq!(UnitStatus::ActiveFailed("x".to_owned()).clone(), UnitStatus::ActiveFailed("x".to_owned()));
}
