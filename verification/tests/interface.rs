use exclave::config::Config;
use exclave::unit::{UnitDescriptionError, UnitKind, UnitName, UnitNameError};
use exclave::unitbroadcaster::UnitBroadcaster;
use exclave::unitfile::DirectiveEntry;
use exclave::unitlibrary::UnitLibrary;
use exclave::unitmanager::{
    ManagerControlMessage, ManagerControlMessageContents, ManagerStatusMessage,
};
use exclave::units::interface::{Interface, InterfaceDescription, InterfaceFormat};
use exclave::units::jig::JigDescription;

fn name(text: &str, kind: UnitKind) -> UnitName {
    UnitName::from_str(text, kind).unwrap()
}

fn empty_library() -> UnitLibrary {
    UnitLibrary::new(UnitBroadcaster::new(), Config::new("/home/runner".to_owned()))
}

fn running(body: &str) -> Interface {
    let library = empty_library();
    let description = InterfaceDescription::from_path("ui.interface", body).unwrap();
    let mut interface = description.select(&library, library.config()).unwrap();
    interface.activated();
    interface
}

fn solo(key: &str, value: Option<&str>) -> DirectiveEntry {
    DirectiveEntry::Solo(key.to_owned(), value.map(str::to_owned))
}

fn contents(line: &str) -> ManagerControlMessageContents {
    Interface::text_read(&name("ui", UnitKind::Interface), line).unwrap().contents
}

#[test]
fn text_verb_round_trip() {
    let interface = running("[Interface]\nExecStart=/bin/cat\n");
    let list = ManagerStatusMessage::Scenarios(vec![
        name("a.scenario", UnitKind::Scenario),
        name("b.scenario", UnitKind::Scenario),
    ]);
    assert_eq!(interface.output_message(&list), Ok("SCENARIOS a.scenario b.scenario\n".to_owned()));
    let ui = name("ui", UnitKind::Interface);
    assert_eq!(
        Interface::text_read(&ui, "scenario a.scenario"),
        Some(ManagerControlMessage::new(
            &ui,
            ManagerControlMessageContents::Scenario(name("a", UnitKind::Scenario))
        ))
    );
}

#[test]
fn every_message_has_its_line() {
    let interface = running("[Interface]\nExecStart=/bin/cat\n");
    let line = |message| interface.output_message(&message).unwrap();
    assert_eq!(line(ManagerStatusMessage::Jig(name("rig1", UnitKind::Jig))), "JIG rig1.jig\n");
    assert_eq!(line(ManagerStatusMessage::Hello("runner 1".to_owned())), "HELLO runner 1\n");
    assert_eq!(
        line(ManagerStatusMessage::Scenario(Some(name("s1", UnitKind::Scenario)))),
        "SCENARIO s1.scenario\n"
    );
    assert_eq!(line(ManagerStatusMessage::Scenario(None)), "SCENARIO\n");
    assert_eq!(line(ManagerStatusMessage::Scenarios(vec![])), "SCENARIOS\n");
    assert_eq!(
        line(ManagerStatusMessage::Describe(
            "test".to_owned(),
            "name".to_owned(),
            "t1".to_owned(),
            "First test".to_owned()
        )),
        "DESCRIBE test name t1 First test\n"
    );
}

#[test]
fn free_text_is_escaped_on_the_way_out() {
    let interface = running("[Interface]\nExecStart=/bin/cat\n");
    let message = ManagerStatusMessage::Describe(
        "test".to_owned(),
        "description".to_owned(),
        "t1".to_owned(),
        "two\nlines\tand a \\ and a \r".to_owned(),
    );
    assert_eq!(
        interface.output_message(&message),
        Ok("DESCRIBE test description t1 two\\nlines\\tand a \\\\ and a \\r\n".to_owned())
    );
}

#[test]
fn no_process_no_line() {
    let library = empty_library();
    let description =
        InterfaceDescription::from_path("ui.interface", "[Interface]\nExecStart=/bin/cat\n").unwrap();
    let mut interface = description.select(&library, library.config()).unwrap();
    assert!(!interface.is_running());
    let hello = ManagerStatusMessage::Hello("x".to_owned());
    assert_eq!(interface.output_message(&hello), Err("No process running".to_owned()));
    interface.activated();
    assert!(interface.output_message(&hello).is_ok());
    assert!(interface.deactivate().is_ok());
    assert_eq!(interface.output_message(&hello), Err("No process running".to_owned()));
}

#[test]
fn json_is_refused_both_ways() {
    let interface = running("[Interface]\nExecStart=/bin/cat\nFormat=JSON\n");
    let hello = ManagerStatusMessage::Hello("x".to_owned());
    assert_eq!(
        interface.output_message(&hello),
        Err("JSON format is not implemented".to_owned())
    );
    assert_eq!(
        interface.input_message("scenarios"),
        Err("JSON format is not implemented".to_owned())
    );
    let text = running("[Interface]\nExecStart=/bin/cat\nFormat=Text\n");
    assert_eq!(
        text.input_message("scenarios"),
        Ok(Some(ManagerControlMessage::new(
            &name("ui", UnitKind::Interface),
            ManagerControlMessageContents::Scenarios
        )))
    );
    assert_eq!(text.input_message("   "), Ok(None));
}

#[test]
fn verbs_are_read_in_any_case() {
    assert_eq!(contents("scenarios"), ManagerControlMessageContents::Scenarios);
    assert_eq!(contents("  SCENARIOS  "), ManagerControlMessageContents::Scenarios);
    assert_eq!(contents("Scenarios now"), ManagerControlMessageContents::Scenarios);
    assert_eq!(
        contents("SCENARIO\tA.Scenario"),
        ManagerControlMessageContents::Scenario(name("a", UnitKind::Scenario))
    );
    assert_eq!(
        contents("scenario b"),
        ManagerControlMessageContents::Scenario(name("b", UnitKind::Scenario))
    );
}

#[test]
fn a_bad_scenario_name_is_an_error() {
    assert_eq!(
        contents("scenario"),
        ManagerControlMessageContents::Error("Invalid scenario name: missing identifier".to_owned())
    );
    assert_eq!(
        contents("scenario a.test"),
        ManagerControlMessageContents::Error("Invalid scenario name: wrong unit kind".to_owned())
    );
    assert_eq!(
        contents("scenario a.nothing"),
        ManagerControlMessageContents::Error("Invalid scenario name: unknown unit kind".to_owned())
    );
}

#[test]
fn unknown_verbs_are_handed_on() {
    assert_eq!(
        contents("Jig"),
        ManagerControlMessageContents::Unimplemented("jig".to_owned(), "".to_owned())
    );
    assert_eq!(
        contents("LOG  Hello   World\\tagain"),
        ManagerControlMessageContents::Unimplemented("log".to_owned(), "Hello World\tagain".to_owned())
    );
}

#[test]
fn blank_lines_give_no_message() {
    let ui = name("ui", UnitKind::Interface);
    assert_eq!(Interface::text_read(&ui, ""), None);
    assert_eq!(Interface::text_read(&ui, " \t "), None);
}

#[test]
fn the_escapes_are_decoded_in_one_pass() {
    let decode = |text: &str| Interface::cfti_unescape(text.to_owned());
    assert_eq!(decode("plain"), "plain");
    assert_eq!(decode("a\\tb\\nc\\rd\\\\e"), "a\tb\nc\rd\\e");
    assert_eq!(decode("\\"), "\\");
    assert_eq!(decode("\\\\\\\\"), "\\\\");
    assert_eq!(decode("\\\\t"), "\\t");
    assert_eq!(decode("\\\\\\t"), "\\\t");
    assert_eq!(decode("\\x"), "\\x");
    assert_eq!(decode("\\t\\"), "\t\\");
}

#[test]
fn what_is_escaped_reads_back() {
    let interface = running("[Interface]\nExecStart=/bin/cat\n");
    for text in ["", "plain", "\\t", "\\\\n", "a\tb\nc\rd\\e", "\\", "\\\\\\r\r"] {
        let line = interface.output_message(&ManagerStatusMessage::Hello(text.to_owned())).unwrap();
        let written = line.strip_prefix("HELLO ").unwrap().strip_suffix("\n").unwrap();
        assert!(!written.contains(['\t', '\n', '\r']));
        assert_eq!(Interface::cfti_unescape(written.to_owned()), text);
    }
}

fn is_white_space(c: char) -> bool {
    matches!(
        c as u32,
        0x09..=0x0D
            | 0x20
            | 0x85
            | 0xA0
            | 0x1680
            | 0x2000..=0x200A
            | 0x2028
            | 0x2029
            | 0x202F
            | 0x205F
            | 0x3000
    )
}

/// Whether a line with `c` between two letters is read as two words.
fn splits(c: char) -> bool {
    let line = format!("v a{}b", c);
    match contents(&line) {
        ManagerControlMessageContents::Unimplemented(_, rest) => rest == "a b",
        other => panic!("{:?} gave {:?}", line, other),
    }
}

fn white_space_splits_in(from: u32, to: u32) {
    for code in from..to {
        if let Some(c) = char::from_u32(code) {
            assert_eq!(splits(c), is_white_space(c), "U+{:04X}", code);
        }
    }
}

#[test]
fn words_end_at_white_space_in_the_basic_plane() {
    white_space_splits_in(0, 0x4000);
    white_space_splits_in(0x4000, 0x10000);
}

#[test]
fn words_end_at_white_space_in_the_lower_planes() {
    white_space_splits_in(0x10000, 0x60000);
}

#[test]
fn words_end_at_white_space_in_the_middle_planes() {
    white_space_splits_in(0x60000, 0xC0000);
}

#[test]
fn words_end_at_white_space_in_the_upper_planes() {
    white_space_splits_in(0xC0000, 0x110000);
}

#[test]
fn the_verb_decides_what_is_asked() {
    assert_eq!(
        Interface::control_message("scenarios", "", "rest".to_owned()),
        ManagerControlMessageContents::Scenarios
    );
    assert_eq!(
        Interface::control_message("scenario", "s1", "S1 more".to_owned()),
        ManagerControlMessageContents::Scenario(name("s1", UnitKind::Scenario))
    );
    assert_eq!(
        Interface::control_message("start", "s1", "S1 more".to_owned()),
        ManagerControlMessageContents::Unimplemented("start".to_owned(), "S1 more".to_owned())
    );
}

#[test]
fn a_unit_file_is_read_key_by_key() {
    let body = "# the user interface\n[Interface]\nName=Console\nDescription=A text console\n\
                Jigs=rig1, rig2\nWorkingDirectory=/srv/ui\nExecStart=/usr/bin/console --fast\n\
                Format=json\nColour=blue\n";
    let description = InterfaceDescription::from_path("/units/ui.interface", body).unwrap();
    assert_eq!(description.id(), &name("ui", UnitKind::Interface));
    assert_eq!(description.name(), "Console");
    assert_eq!(description.description(), "A text console");
    assert!(description.supports_jig(&name("rig1", UnitKind::Jig)));
    assert!(description.supports_jig(&name("rig2", UnitKind::Jig)));
    assert!(!description.supports_jig(&name("rig3", UnitKind::Jig)));
    let mut library = empty_library();
    library.update_jig_description(JigDescription::new(name("rig2", UnitKind::Jig), "", ""));
    assert_eq!(library.rescan(), exclave::unitlibrary::RescanRequest::Finished);
    let interface = description.select(&library, library.config()).unwrap();
    let launch = interface.activate(library.config());
    assert_eq!(launch.id, name("ui", UnitKind::Interface));
    assert_eq!(launch.command, "/usr/bin/console --fast");
    assert_eq!(launch.directory, "/srv/ui");
    assert_eq!(launch.format, InterfaceFormat::JSON);
    assert_eq!(
        launch.greeting,
        ManagerControlMessage::new(
            &name("ui", UnitKind::Interface),
            ManagerControlMessageContents::InitialGreeting
        )
    );
}

#[test]
fn the_defaults_of_a_unit_file() {
    let description =
        InterfaceDescription::from_path("ui.interface", "[Interface]\nExecStart=/bin/cat\n").unwrap();
    assert_eq!(description.name(), "");
    assert_eq!(description.description(), "");
    let library = empty_library();
    assert!(description.is_compatible(&library, library.config()).is_ok());
    let launch = description.select(&library, library.config()).unwrap().activate(library.config());
    assert_eq!(launch.directory, "/home/runner");
    assert_eq!(launch.format, InterfaceFormat::Text);
}

#[test]
fn an_interface_needs_one_of_its_jigs() {
    let description = InterfaceDescription::from_path(
        "ui.interface",
        "[Interface]\nExecStart=/bin/cat\nJigs=rig1 rig2\n",
    )
    .unwrap();
    let mut library = empty_library();
    assert_eq!(
        description.is_compatible(&library, library.config()),
        Err(exclave::unit::UnitIncompatibleReason::IncompatibleJig)
    );
    assert!(description.select(&library, library.config()).is_err());
    library.update_jig_description(JigDescription::new(name("rig2", UnitKind::Jig), "", ""));
    assert!(description.select(&library, library.config()).is_err());
    library.rescan();
    assert!(description.is_compatible(&library, library.config()).is_ok());
}

#[test]
fn a_missing_section_is_refused() {
    assert_eq!(
        InterfaceDescription::from_path("ui.interface", "[Test]\nExecStart=/bin/cat\n"),
        Err(UnitDescriptionError::MissingSection("Interface".to_owned()))
    );
}

#[test]
fn a_missing_command_is_refused() {
    let missing = Err(UnitDescriptionError::MissingValue(
        "Interface".to_owned(),
        "ExecStart".to_owned(),
    ));
    assert_eq!(InterfaceDescription::from_path("ui.interface", "[Interface]\nName=x\n"), missing);
    assert_eq!(
        InterfaceDescription::from_path("ui.interface", "[Interface]\nExecStart=\n"),
        missing
    );
}

#[test]
fn an_unknown_format_is_refused() {
    assert_eq!(
        InterfaceDescription::from_path(
            "ui.interface",
            "[Interface]\nExecStart=/bin/cat\nFormat=XML\n"
        ),
        Err(UnitDescriptionError::InvalidValue(
            "Interface".to_owned(),
            "Format".to_owned(),
            "xml".to_owned(),
            vec!["text".to_owned(), "json".to_owned()],
        ))
    );
}

#[test]
fn a_bad_path_or_jig_is_refused() {
    assert_eq!(
        InterfaceDescription::from_path("ui", "[Interface]\nExecStart=/bin/cat\n"),
        Err(UnitDescriptionError::InvalidUnitName(UnitNameError::MissingKind))
    );
    assert_eq!(
        InterfaceDescription::from_path(
            "ui.interface",
            "[Interface]\nExecStart=/bin/cat\nJigs=rig1.test\n"
        ),
        Err(UnitDescriptionError::InvalidUnitName(UnitNameError::WrongKind))
    );
}

#[test]
fn text_that_is_no_unit_file_is_refused() {
    for body in ["", "ExecStart=/bin/cat\n", "[Interface]\nwhat is this\n"] {
        match InterfaceDescription::from_path("ui.interface", body) {
            Err(UnitDescriptionError::ParseError(_)) => {}
            other => panic!("{:?} gave {:?}", body, other),
        }
    }
}

#[test]
fn entries_are_applied_in_the_order_given() {
    let id = name("ui", UnitKind::Interface);
    let entries = vec![
        solo("Name", Some("first")),
        DirectiveEntry::Many,
        solo("ExecStart", Some("/bin/one")),
        solo("Name", None),
        solo("Format", None),
        solo("WorkingDirectory", None),
        solo("Jigs", None),
        solo("Other", Some("x")),
    ];
    let description = InterfaceDescription::from_directives(id.clone(), &entries).unwrap();
    assert_eq!(description.name(), "");
    let library = empty_library();
    let launch = description.select(&library, library.config()).unwrap().activate(library.config());
    assert_eq!(launch.command, "/bin/one");
    assert_eq!(launch.directory, "");
    assert_eq!(launch.format, InterfaceFormat::Text);

    let failing = vec![
        solo("Format", Some("yaml")),
        solo("ExecStart", None),
    ];
    assert!(matches!(
        InterfaceDescription::from_directives(id.clone(), &failing),
        Err(UnitDescriptionError::InvalidValue(..))
    ));
    let failing = vec![solo("ExecStart", None), solo("Format", Some("yaml"))];
    assert!(matches!(
        InterfaceDescription::from_directives(id.clone(), &failing),
        Err(UnitDescriptionError::MissingValue(..))
    ));
    assert!(matches!(
        InterfaceDescription::from_directives(id, &vec![]),
        Err(UnitDescriptionError::MissingValue(..))
    ));
}

#[test]
fn a_key_that_occurs_twice_is_passed_over() {
    let description = InterfaceDescription::from_path(
        "ui.interface",
        "[Interface]\nName=one\nName=two\nExecStart=/bin/cat\n",
    )
    .unwrap();
    assert_eq!(description.name(), "");
}

#[test]
fn the_order_of_the_keys_does_not_matter() {
    let one = InterfaceDescription::from_path(
        "ui.interface",
        "[Interface]\nName=Console\nExecStart=/bin/console\nJigs=rig1\nFormat=text\n",
    );
    let other = InterfaceDescription::from_path(
        "ui.interface",
        "[Interface]\nFormat=text\nJigs=rig1\nExecStart=/bin/console\nName=Console\n",
    );
    assert!(one.is_ok());
    assert_eq!(one, other);
    let entries = vec![
        solo("Format", Some("Text")),
        solo("ExecStart", Some("/bin/console")),
        solo("Jigs", Some("rig1")),
        solo("Name", Some("Console")),
    ];
    let listed = InterfaceDescription::from_directives(name("ui", UnitKind::Interface), &entries);
    assert_eq!(one, listed);
}

#[test]
fn keys_of_other_sections_are_passed_over() {
    let description = InterfaceDescription::from_path(
        "ui.interface",
        "[Unit]\nName=elsewhere\n[Interface]\nExecStart=/bin/cat\n",
    )
    .unwrap();
    assert_eq!(description.name(), "");
}
