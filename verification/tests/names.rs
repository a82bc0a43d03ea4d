use exclave::unit::{UnitIncompatibleReason, UnitKind, UnitName, UnitNameError};

#[test]
fn a_bare_identifier_takes_the_kind_asked_for() {
    let name = UnitName::from_str("rig1", UnitKind::Jig).unwrap();
    assert_eq!(name.kind(), UnitKind::Jig);
    assert_eq!(name.id(), "rig1");
    assert_eq!(name.to_string(), "rig1.jig");
}

#[test]
fn an_extension_has_to_be_the_kind_asked_for() {
    let name = UnitName::from_str("a.scenario", UnitKind::Scenario).unwrap();
    assert_eq!(name.kind(), UnitKind::Scenario);
    assert_eq!(name.id(), "a");
    assert_eq!(UnitName::from_str("a.test", UnitKind::Scenario), Err(UnitNameError::WrongKind));
    assert_eq!(UnitName::from_str("a.b", UnitKind::Scenario), Err(UnitNameError::UnknownKind));
    assert_eq!(UnitName::from_str("a.", UnitKind::Scenario), Err(UnitNameError::UnknownKind));
}

#[test]
fn an_empty_identifier_is_refused() {
    assert_eq!(UnitName::from_str("", UnitKind::Scenario), Err(UnitNameError::MissingIdentifier));
    assert_eq!(
        UnitName::from_str(".scenario", UnitKind::Scenario),
        Err(UnitNameError::MissingIdentifier)
    );
}

#[test]
fn the_identifier_ends_at_the_last_dot() {
    let name = UnitName::from_str("a.b.test", UnitKind::Test).unwrap();
    assert_eq!(name.id(), "a.b");
    assert_eq!(name.to_string(), "a.b.test");
}

#[test]
fn names_are_equal_when_kind_and_identifier_are() {
    let a = UnitName::from_str("x", UnitKind::Test).unwrap();
    let b = UnitName::from_str("x.test", UnitKind::Test).unwrap();
    let c = UnitName::from_str("x", UnitKind::Jig).unwrap();
    let d = UnitName::from_str("y", UnitKind::Test).unwrap();
    assert!(a.same(&b));
    assert!(!a.same(&c));
    assert!(!a.same(&d));
    assert_eq!(a, b);
    assert_ne!(a, c);
}

#[test]
fn a_list_is_split_at_commas_and_white_space() {
    let names = UnitName::from_list("rig1, rig2\trig3,,rig4.jig ", UnitKind::Jig).unwrap();
    let texts: Vec<String> = names.iter().map(|n| n.to_string()).collect();
    assert_eq!(texts, vec!["rig1.jig", "rig2.jig", "rig3.jig", "rig4.jig"]);
    assert_eq!(UnitName::from_list("", UnitKind::Jig), Ok(vec![]));
    assert_eq!(UnitName::from_list(" , ", UnitKind::Jig), Ok(vec![]));
}

#[test]
fn the_first_bad_name_of_a_list_decides() {
    assert_eq!(
        UnitName::from_list("rig1 rig2.test rig3.nothing", UnitKind::Jig),
        Err(UnitNameError::WrongKind)
    );
    assert_eq!(
        UnitName::from_list("rig1 rig3.nothing rig2.test", UnitKind::Jig),
        Err(UnitNameError::UnknownKind)
    );
}

#[test]
fn a_path_gives_stem_and_extension() {
    let name = UnitName::from_path("/etc/units/ui.interface").unwrap();
    assert_eq!(name.kind(), UnitKind::Interface);
    assert_eq!(name.id(), "ui");
    let name = UnitName::from_path("t1.test").unwrap();
    assert_eq!(name.to_string(), "t1.test");
    let name = UnitName::from_path("/a.b/c.d.jig").unwrap();
    assert_eq!(name.id(), "c.d");
}

#[test]
fn an_ill_formed_path_is_refused() {
    assert_eq!(UnitName::from_path("/etc/units/ui"), Err(UnitNameError::MissingKind));
    assert_eq!(UnitName::from_path("/etc/units.d/ui"), Err(UnitNameError::MissingKind));
    assert_eq!(UnitName::from_path("/etc/units/ui.txt"), Err(UnitNameError::UnknownKind));
    assert_eq!(UnitName::from_path("/etc/units/.jig"), Err(UnitNameError::MissingIdentifier));
    assert_eq!(UnitName::from_path(""), Err(UnitNameError::MissingKind));
}

#[test]
fn kinds_and_errors_have_their_words() {
    assert_eq!(UnitKind::Jig.as_str(), "jig");
    assert_eq!(UnitKind::Interface.as_str(), "interface");
    assert_eq!(UnitKind::Test.as_str(), "test");
    assert_eq!(UnitKind::Scenario.as_str(), "scenario");
    assert_eq!(UnitNameError::MissingIdentifier.as_str(), "missing identifier");
    assert_eq!(UnitIncompatibleReason::IncompatibleJig.to_string(), "IncompatibleJig");
}

#[test]
fn a_written_name_reads_back() {
    for (text, kind) in [
        ("rig1", UnitKind::Jig),
        ("a.b", UnitKind::Test),
        ("with space", UnitKind::Scenario),
        ("ui.v2", UnitKind::Interface),
    ] {
        let bare = format!("{}.{}", text, kind.as_str());
        let name = UnitName::from_str(&bare, kind).unwrap();
        assert_eq!(name.id(), text);
        assert_eq!(UnitName::from_str(&name.to_string(), kind), Ok(name.clone()));
        assert_eq!(UnitName::from_path(&format!("/units/{}", name.to_string())), Ok(name));
    }
}

#[test]
fn a_list_is_split_at_every_kind_of_white_space() {
    let names =
        UnitName::from_list("a\u{A0}b\u{3000}c\u{2028}d\u{85}e\u{200A}f\rg", UnitKind::Jig).unwrap();
    let texts: Vec<String> = names.iter().map(|n| n.id().clone()).collect();
    assert_eq!(texts, vec!["a", "b", "c", "d", "e", "f", "g"]);
    let one = UnitName::from_list("a\u{200B}b\u{180E}c", UnitKind::Jig).unwrap();
    assert_eq!(one.len(), 1);
}
