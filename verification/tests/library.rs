use exclave::config::Config;
use exclave::unit::{UnitActivateError, UnitDeactivateError, UnitKind, UnitName};
use exclave::unitbroadcaster::{UnitBroadcaster, UnitEvent, UnitStatus};
use exclave::unitlibrary::{RescanReply, RescanRequest, UnitLibrary};
use exclave::units::interface::{InterfaceDescription, InterfaceFormat};
use exclave::units::jig::JigDescription;
use exclave::units::scenario::ScenarioDescription;
use exclave::units::test::TestDescription;

fn name(text: &str, kind: UnitKind) -> UnitName {
    UnitName::from_str(text, kind).unwrap()
}

fn library() -> (UnitLibrary, usize) {
    let mut library = UnitLibrary::new(UnitBroadcaster::new(), Config::new("/tmp".to_owned()));
    let subscriber = library.subscribe();
    (library, subscriber)
}

fn interface(path: &str, body: &str) -> InterfaceDescription {
    InterfaceDescription::from_path(path, body).unwrap()
}

fn jig(id: &str) -> JigDescription {
    JigDescription::new(name(id, UnitKind::Jig), "a jig", "")
}

fn test(id: &str, jigs: &[&str]) -> TestDescription {
    let jigs = jigs.iter().map(|j| name(j, UnitKind::Jig)).collect();
    TestDescription::new(name(id, UnitKind::Test), "a test", "", jigs)
}

fn scenario(id: &str, jigs: &[&str], tests: &[&str]) -> ScenarioDescription {
    let jigs = jigs.iter().map(|j| name(j, UnitKind::Jig)).collect();
    let tests = tests.iter().map(|t| name(t, UnitKind::Test)).collect();
    ScenarioDescription::new(name(id, UnitKind::Scenario), "a scenario", "", jigs, tests)
}

/// Runs a rescan to its end, answering every request with success, and
/// returns the requests in order.
fn rescan(library: &mut UnitLibrary) -> Vec<RescanRequest> {
    let mut requests = vec![];
    let mut request = library.rescan();
    loop {
        let reply = match &request {
            RescanRequest::Deactivate(_) => RescanReply::Deactivated(Ok(())),
            RescanRequest::Activate(_) => RescanReply::Activated(Ok(())),
            RescanRequest::Finished => {
                requests.push(request);
                return requests;
            }
        };
        requests.push(request);
        request = library.resume(reply);
    }
}

fn drain(library: &mut UnitLibrary, subscriber: usize) -> Vec<UnitEvent> {
    let mut events = vec![];
    while let Some(event) = library.receive(subscriber) {
        events.push(event);
    }
    events
}

fn status(id: &UnitName, status: UnitStatus) -> UnitEvent {
    UnitEvent::Status(exclave::unitbroadcaster::UnitStatusEvent { name: id.clone(), status })
}

fn position(events: &[UnitEvent], wanted: &UnitEvent) -> usize {
    events
        .iter()
        .position(|e| e == wanted)
        .unwrap_or_else(|| panic!("{:?} is not among {:?}", wanted, events))
}

#[test]
fn universal_jig() {
    let (mut library, subscriber) = library();
    library.update_interface_description(interface(
        "ui.interface",
        "[Interface]\nExecStart=/bin/cat\nJigs=\n",
    ));
    let requests = rescan(&mut library);
    let ui = name("ui", UnitKind::Interface);
    assert_eq!(requests.len(), 2);
    match &requests[0] {
        RescanRequest::Activate(launch) => {
            assert_eq!(launch.id, ui);
            assert_eq!(launch.command, "/bin/cat");
            assert_eq!(launch.directory, "/tmp");
            assert_eq!(launch.format, InterfaceFormat::Text);
        }
        other => panic!("unexpected request {:?}", other),
    }
    assert_eq!(requests[1], RescanRequest::Finished);
    let live = library.get_interface(&ui).expect("the interface is loaded");
    assert!(live.is_running());
    let events = drain(&mut library, subscriber);
    let selected = position(&events, &status(&ui, UnitStatus::Selected));
    let active = position(&events, &status(&ui, UnitStatus::Active));
    assert!(selected < active);
}

#[test]
fn missing_jig() {
    let (mut library, subscriber) = library();
    library.update_test_description(test("t1.test", &["rig1"]));
    let requests = rescan(&mut library);
    assert_eq!(requests, vec![RescanRequest::Finished]);
    let t1 = name("t1", UnitKind::Test);
    assert!(library.get_test(&t1).is_none());
    assert!(library.get_tests().is_empty());
    let events = drain(&mut library, subscriber);
    position(&events, &status(&t1, UnitStatus::UnitIncompatible("IncompatibleJig".to_owned())));
}

#[test]
fn late_jig() {
    let (mut library, subscriber) = library();
    library.update_test_description(test("t1.test", &["rig1"]));
    rescan(&mut library);
    drain(&mut library, subscriber);
    let t1 = name("t1", UnitKind::Test);
    let rig1 = name("rig1", UnitKind::Jig);
    assert!(!library.is_dirty(&t1));

    library.update_jig_description(jig("rig1.jig"));
    assert!(!library.is_dirty(&t1));
    rescan(&mut library);
    assert!(library.jig_is_loaded(&rig1));
    assert!(library.get_test(&t1).is_some());
    let events = drain(&mut library, subscriber);
    assert_eq!(
        events,
        vec![
            UnitEvent::Category(exclave::unitbroadcaster::UnitCategoryEvent {
                kind: UnitKind::Jig,
                status: "Number of jigs loaded: 1".to_owned(),
            }),
            UnitEvent::RescanStart,
            status(&rig1, UnitStatus::Selected),
            status(&t1, UnitStatus::Selected),
            UnitEvent::RescanFinish,
        ]
    );
}

#[test]
fn scenario_invalidation_by_test_churn() {
    let (mut library, subscriber) = library();
    library.update_test_description(test("t1.test", &[]));
    library.update_scenario_description(scenario("s1.scenario", &[], &["t1"]));
    rescan(&mut library);
    let s1 = name("s1", UnitKind::Scenario);
    let t1 = name("t1", UnitKind::Test);
    assert!(library.get_scenario(&s1).unwrap().uses_test(&t1));
    drain(&mut library, subscriber);

    library.update_test_description(test("t1.test", &[]));
    assert_eq!(library.unit_status(&t1), Some(&UnitStatus::UpdateStarted));
    assert_eq!(library.unit_status(&s1), None);
    rescan(&mut library);
    let events = drain(&mut library, subscriber);
    let test_selected = position(&events, &status(&t1, UnitStatus::Selected));
    let scenario_selected = position(&events, &status(&s1, UnitStatus::Selected));
    assert!(test_selected < scenario_selected);
    assert!(library.get_scenario(&s1).is_some());
}

#[test]
fn interface_reload() {
    let (mut library, subscriber) = library();
    library
        .update_interface_description(interface("ui.interface", "[Interface]\nExecStart=/bin/one\n"));
    rescan(&mut library);
    drain(&mut library, subscriber);
    let ui = name("ui", UnitKind::Interface);

    library.update_interface_description(interface(
        "ui.interface",
        "[Interface]\nExecStart=/bin/two\nWorkingDirectory=/srv\n",
    ));
    assert_eq!(library.unit_status(&ui), Some(&UnitStatus::UpdateStarted));
    let requests = rescan(&mut library);
    assert_eq!(requests.len(), 3);
    assert_eq!(requests[0], RescanRequest::Deactivate(ui.clone()));
    match &requests[1] {
        RescanRequest::Activate(launch) => {
            assert_eq!(launch.command, "/bin/two");
            assert_eq!(launch.directory, "/srv");
        }
        other => panic!("unexpected request {:?}", other),
    }
    assert_eq!(
        drain(&mut library, subscriber),
        vec![
            UnitEvent::Category(exclave::unitbroadcaster::UnitCategoryEvent {
                kind: UnitKind::Interface,
                status: "Number of interfaces loaded: 1".to_owned(),
            }),
            UnitEvent::RescanStart,
            status(&ui, UnitStatus::DeactivateSuccess("Reloading interface".to_owned())),
            status(&ui, UnitStatus::Deselected),
            status(&ui, UnitStatus::Selected),
            status(&ui, UnitStatus::Active),
            UnitEvent::RescanFinish,
        ]
    );
    assert!(library.get_interface(&ui).unwrap().is_running());
}

#[test]
fn interface_reload_reports_a_failed_stop_and_goes_on() {
    let (mut library, subscriber) = library();
    library
        .update_interface_description(interface("ui.interface", "[Interface]\nExecStart=/bin/one\n"));
    rescan(&mut library);
    library
        .update_interface_description(interface("ui.interface", "[Interface]\nExecStart=/bin/two\n"));
    drain(&mut library, subscriber);
    let ui = name("ui", UnitKind::Interface);

    assert_eq!(library.rescan(), RescanRequest::Deactivate(ui.clone()));
    assert!(!library.is_idle());
    assert!(library.get_interface(&ui).is_none());
    let stuck = UnitDeactivateError { message: "still running".to_owned() };
    let request = library.resume(RescanReply::Deactivated(Err(stuck)));
    assert!(matches!(request, RescanRequest::Activate(_)));
    assert_eq!(library.resume(RescanReply::Activated(Ok(()))), RescanRequest::Finished);
    assert!(library.is_idle());
    assert_eq!(
        drain(&mut library, subscriber),
        vec![
            UnitEvent::RescanStart,
            status(
                &ui,
                UnitStatus::DeactivateFailure("Unable to deactivate: still running".to_owned())
            ),
            status(&ui, UnitStatus::Deselected),
            status(&ui, UnitStatus::Selected),
            status(&ui, UnitStatus::Active),
            UnitEvent::RescanFinish,
        ]
    );
}

#[test]
fn failed_activation_keeps_the_interface_out() {
    let (mut library, subscriber) = library();
    library
        .update_interface_description(interface("ui.interface", "[Interface]\nExecStart=/bin/one\n"));
    assert!(matches!(library.rescan(), RescanRequest::Activate(_)));
    let failed = UnitActivateError { message: "no such file".to_owned() };
    assert_eq!(library.resume(RescanReply::Activated(Err(failed))), RescanRequest::Finished);
    let ui = name("ui", UnitKind::Interface);
    assert!(library.get_interface(&ui).is_none());
    assert!(!library.is_dirty(&ui));
    assert_eq!(library.unit_status(&ui), None);
    let events = drain(&mut library, subscriber);
    assert_eq!(
        events[2..],
        [
            status(&ui, UnitStatus::Selected),
            status(&ui, UnitStatus::ActiveFailed("no such file".to_owned())),
            UnitEvent::RescanFinish,
        ]
    );
}

#[test]
fn an_answer_that_was_not_asked_for_changes_nothing() {
    let (mut library, subscriber) = library();
    assert_eq!(library.resume(RescanReply::Activated(Ok(()))), RescanRequest::Finished);
    library
        .update_interface_description(interface("ui.interface", "[Interface]\nExecStart=/bin/one\n"));
    let first = library.rescan();
    drain(&mut library, subscriber);
    let again = library.resume(RescanReply::Deactivated(Ok(())));
    assert_eq!(first, again);
    assert!(drain(&mut library, subscriber).is_empty());
    assert_eq!(library.resume(RescanReply::Activated(Ok(()))), RescanRequest::Finished);
}

#[test]
fn upsert_twice_is_load_then_update() {
    let (mut library, subscriber) = library();
    let t1 = name("t1", UnitKind::Test);
    library.update_test_description(test("t1.test", &[]));
    assert_eq!(library.unit_status(&t1), Some(&UnitStatus::LoadStarted));
    assert!(library.is_dirty(&t1));
    assert!(library.is_described(&t1));
    library.update_test_description(test("t1.test", &[]));
    assert_eq!(library.unit_status(&t1), Some(&UnitStatus::UpdateStarted));
    assert_eq!(
        drain(&mut library, subscriber),
        vec![
            UnitEvent::Category(exclave::unitbroadcaster::UnitCategoryEvent {
                kind: UnitKind::Test,
                status: "Number of tests loaded: 1".to_owned(),
            }),
            UnitEvent::Category(exclave::unitbroadcaster::UnitCategoryEvent {
                kind: UnitKind::Test,
                status: "Number of tests loaded: 1".to_owned(),
            }),
        ]
    );
}

#[test]
fn the_count_of_descriptions_is_written_in_decimal() {
    let (mut library, subscriber) = library();
    for i in 0..12 {
        library.update_scenario_description(scenario(&format!("s{}", i), &[], &[]));
    }
    let events = drain(&mut library, subscriber);
    assert_eq!(
        events[9],
        UnitEvent::Category(exclave::unitbroadcaster::UnitCategoryEvent {
            kind: UnitKind::Scenario,
            status: "Number of scenarios loaded: 10".to_owned(),
        })
    );
    assert_eq!(
        events[11],
        UnitEvent::Category(exclave::unitbroadcaster::UnitCategoryEvent {
            kind: UnitKind::Scenario,
            status: "Number of scenarios loaded: 12".to_owned(),
        })
    );
}

#[test]
fn after_a_rescan_nothing_is_dirty_and_nothing_has_a_label() {
    let (mut library, _) = library();
    let names = [
        name("rig1", UnitKind::Jig),
        name("t1", UnitKind::Test),
        name("t2", UnitKind::Test),
        name("s1", UnitKind::Scenario),
        name("ui", UnitKind::Interface),
    ];
    library.update_jig_description(jig("rig1"));
    library.update_test_description(test("t1", &["rig1"]));
    library.update_test_description(test("t2", &["rig2"]));
    library.update_scenario_description(scenario("s1", &["rig1"], &["t1"]));
    library
        .update_interface_description(interface("ui.interface", "[Interface]\nExecStart=/bin/one\n"));
    library.remove_test(&names[2]);
    for id in &names {
        assert!(library.is_dirty(id));
        assert!(library.unit_status(id).is_some());
    }
    rescan(&mut library);
    for id in &names {
        assert!(!library.is_dirty(id));
        assert_eq!(library.unit_status(id), None);
    }
    assert!(library.is_idle());
}

#[test]
fn a_second_rescan_only_announces_itself() {
    let (mut library, subscriber) = library();
    library.update_jig_description(jig("rig1"));
    library.update_test_description(test("t1", &["rig1"]));
    library
        .update_interface_description(interface("ui.interface", "[Interface]\nExecStart=/bin/one\n"));
    rescan(&mut library);
    drain(&mut library, subscriber);
    assert_eq!(rescan(&mut library), vec![RescanRequest::Finished]);
    assert_eq!(
        drain(&mut library, subscriber),
        vec![UnitEvent::RescanStart, UnitEvent::RescanFinish]
    );
    assert!(library.get_test(&name("t1", UnitKind::Test)).is_some());
    assert!(library.jig_is_loaded(&name("rig1", UnitKind::Jig)));
    assert!(library.get_interface(&name("ui", UnitKind::Interface)).is_some());
}

#[test]
fn remove_then_upsert_loads_like_upsert() {
    let (mut once, _) = library();
    let (mut twice, _) = library();
    for library in [&mut once, &mut twice] {
        library.update_jig_description(jig("rig1"));
        library.update_test_description(test("t1", &["rig1"]));
        rescan(library);
    }
    let t1 = name("t1", UnitKind::Test);
    once.update_test_description(test("t1", &[]));
    twice.remove_test(&t1);
    assert_eq!(twice.unit_status(&t1), Some(&UnitStatus::UnloadStarted));
    assert!(!twice.is_described(&t1));
    twice.update_test_description(test("t1", &[]));
    assert_eq!(twice.unit_status(&t1), Some(&UnitStatus::LoadStarted));
    rescan(&mut once);
    rescan(&mut twice);
    assert_eq!(once.get_test(&t1), twice.get_test(&t1));
    assert!(once.get_test(&t1).is_some());
    assert!(!once.get_test(&t1).unwrap().supports_jig(&name("rig1", UnitKind::Jig)));
}

#[test]
fn upsert_then_remove_before_rescan_leaves_nothing() {
    let (mut library, subscriber) = library();
    let t1 = name("t1", UnitKind::Test);
    library.update_test_description(test("t1", &[]));
    library.remove_test(&t1);
    rescan(&mut library);
    assert!(!library.is_described(&t1));
    assert!(library.get_test(&t1).is_none());
    let events = drain(&mut library, subscriber);
    let unloading = status(&t1, UnitStatus::Unloading);
    assert_eq!(events.iter().filter(|e| **e == unloading).count(), 1);
    assert_eq!(events.len(), 4);
}

#[test]
fn removing_a_loaded_unit_unloads_it_at_the_next_rescan() {
    let (mut library, subscriber) = library();
    let t1 = name("t1", UnitKind::Test);
    library.update_test_description(test("t1", &[]));
    rescan(&mut library);
    library.remove_test(&t1);
    assert!(library.get_test(&t1).is_some());
    drain(&mut library, subscriber);
    rescan(&mut library);
    assert!(library.get_test(&t1).is_none());
    assert_eq!(
        drain(&mut library, subscriber),
        vec![UnitEvent::RescanStart, UnitEvent::RescanFinish]
    );
}

#[test]
fn removing_a_loaded_interface_asks_to_stop_it() {
    let (mut library, subscriber) = library();
    let ui = name("ui", UnitKind::Interface);
    library
        .update_interface_description(interface("ui.interface", "[Interface]\nExecStart=/bin/one\n"));
    rescan(&mut library);
    library.remove_interface(&ui);
    drain(&mut library, subscriber);
    assert_eq!(library.rescan(), RescanRequest::Deactivate(ui.clone()));
    assert!(library.get_interface(&ui).is_none());
    let stuck = UnitDeactivateError { message: "busy".to_owned() };
    assert_eq!(library.resume(RescanReply::Deactivated(Err(stuck))), RescanRequest::Finished);
    assert_eq!(
        drain(&mut library, subscriber),
        vec![
            UnitEvent::RescanStart,
            status(&ui, UnitStatus::DeactivateFailure("Unable to deactivate: busy".to_owned())),
            UnitEvent::RescanFinish,
        ]
    );
}

#[test]
fn a_changed_jig_has_its_dependents_selected_again() {
    let (mut library, subscriber) = library();
    library.update_jig_description(jig("rig1"));
    library.update_test_description(test("t1", &["rig1"]));
    library.update_test_description(test("t2", &["rig2"]));
    library.update_scenario_description(scenario("s1", &["rig1"], &[]));
    library.update_interface_description(interface(
        "ui.interface",
        "[Interface]\nExecStart=/bin/one\nJigs=rig1, rig3\n",
    ));
    rescan(&mut library);
    drain(&mut library, subscriber);

    library.update_jig_description(jig("rig1"));
    let requests = rescan(&mut library);
    assert_eq!(requests.len(), 3);
    let events = drain(&mut library, subscriber);
    let rig1 = name("rig1", UnitKind::Jig);
    let jig_selected = position(&events, &status(&rig1, UnitStatus::Selected));
    for id in [
        name("t1", UnitKind::Test),
        name("s1", UnitKind::Scenario),
        name("ui", UnitKind::Interface),
    ] {
        assert!(jig_selected < position(&events, &status(&id, UnitStatus::Selected)));
    }
    let t2 = status(&name("t2", UnitKind::Test), UnitStatus::Selected);
    assert!(!events.contains(&t2));
}

#[test]
fn an_unloaded_jig_makes_its_test_incompatible_but_leaves_it_loaded() {
    let (mut library, subscriber) = library();
    let rig1 = name("rig1", UnitKind::Jig);
    let t1 = name("t1", UnitKind::Test);
    library.update_jig_description(jig("rig1"));
    library.update_test_description(test("t1", &["rig1"]));
    rescan(&mut library);
    library.remove_jig(&rig1);
    drain(&mut library, subscriber);
    rescan(&mut library);
    assert!(!library.jig_is_loaded(&rig1));
    assert!(library.get_jig(&rig1).is_none());
    assert!(library.get_test(&t1).is_some());
    assert_eq!(
        drain(&mut library, subscriber),
        vec![
            UnitEvent::RescanStart,
            status(&t1, UnitStatus::UnitIncompatible("IncompatibleJig".to_owned())),
            UnitEvent::RescanFinish,
        ]
    );
}

#[test]
fn an_incompatible_interface_is_stopped_and_not_started() {
    let (mut library, subscriber) = library();
    let rig1 = name("rig1", UnitKind::Jig);
    let ui = name("ui", UnitKind::Interface);
    library.update_jig_description(jig("rig1"));
    library.update_interface_description(interface(
        "ui.interface",
        "[Interface]\nExecStart=/bin/one\nJigs=rig1\n",
    ));
    rescan(&mut library);
    library.remove_jig(&rig1);
    drain(&mut library, subscriber);
    let requests = rescan(&mut library);
    assert_eq!(requests, vec![RescanRequest::Deactivate(ui.clone()), RescanRequest::Finished]);
    assert!(library.get_interface(&ui).is_none());
    assert_eq!(
        drain(&mut library, subscriber),
        vec![
            UnitEvent::RescanStart,
            status(&ui, UnitStatus::DeactivateSuccess("Reloading interface".to_owned())),
            status(&ui, UnitStatus::Deselected),
            status(&ui, UnitStatus::UnitIncompatible("IncompatibleJig".to_owned())),
            UnitEvent::RescanFinish,
        ]
    );
}

#[test]
fn the_library_keeps_its_settings() {
    let (library, _) = library();
    assert_eq!(library.config().working_directory(), "/tmp");
}

#[test]
fn what_a_rescan_loads_has_a_jig() {
    let (mut library, _) = library();
    library.update_jig_description(jig("rig1"));
    library.update_test_description(test("with", &["rig0", "rig1"]));
    library.update_test_description(test("without", &["rig0"]));
    library.update_test_description(test("any", &[]));
    library.update_scenario_description(scenario("s1", &["rig1"], &[]));
    library.update_scenario_description(scenario("s2", &["rig2"], &[]));
    library.update_interface_description(interface(
        "ui.interface",
        "[Interface]\nExecStart=/bin/one\nJigs=rig2\n",
    ));
    assert_eq!(rescan(&mut library), vec![RescanRequest::Finished]);
    assert!(library.get_test(&name("with", UnitKind::Test)).is_some());
    assert!(library.get_test(&name("without", UnitKind::Test)).is_none());
    assert!(library.get_test(&name("any", UnitKind::Test)).is_some());
    assert!(library.get_scenario(&name("s1", UnitKind::Scenario)).is_some());
    assert!(library.get_scenario(&name("s2", UnitKind::Scenario)).is_none());
    assert!(library.get_interface(&name("ui", UnitKind::Interface)).is_none());
    assert_eq!(library.get_tests().len(), 2);
}

#[test]
fn the_subscribers_of_the_library_come_and_go() {
    let (mut library, first) = library();
    let second = library.subscribe();
    library.update_jig_description(jig("rig1"));
    library.unsubscribe(first);
    rescan(&mut library);
    assert!(drain(&mut library, first).is_empty());
    assert_eq!(drain(&mut library, second).len(), 4);
}

#[test]
fn remove_then_upsert_loads_the_same_interfaces() {
    let (mut once, _) = library();
    let (mut twice, _) = library();
    for library in [&mut once, &mut twice] {
        library.update_jig_description(jig("rig1"));
        library.update_interface_description(interface(
            "ui.interface",
            "[Interface]\nExecStart=/bin/one\nJigs=rig1\n",
        ));
        library.update_interface_description(interface(
            "log.interface",
            "[Interface]\nExecStart=/bin/log\nJigs=rig1\n",
        ));
        rescan(library);
    }
    let ui = name("ui", UnitKind::Interface);
    let log = name("log", UnitKind::Interface);
    let changed = || interface("ui.interface", "[Interface]\nExecStart=/bin/two\n");
    once.update_interface_description(changed());
    once.update_jig_description(jig("rig1"));
    twice.remove_interface(&ui);
    twice.update_interface_description(changed());
    twice.update_jig_description(jig("rig1"));
    let asked_once = rescan(&mut once);
    let asked_twice = rescan(&mut twice);
    assert_eq!(asked_once.len(), asked_twice.len());
    assert_eq!(asked_once.len(), 5);
    assert!(once.get_interface(&ui).is_some());
    assert_eq!(once.get_interface(&ui), twice.get_interface(&ui));
    assert!(once.get_interface(&log).is_some());
    assert_eq!(once.get_interface(&log), twice.get_interface(&log));
    assert_eq!(once.get_jig(&name("rig1", UnitKind::Jig)), twice.get_jig(&name("rig1", UnitKind::Jig)));
}
