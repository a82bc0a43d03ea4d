//! Scenarios: compositions of tests. The library loads a scenario and marks
//! it for reloading when one of its tests changes.

use crate::config::Config;
use crate::unit::{name_views, UnitIncompatibleReason, UnitName, UnitNameView};
use crate::unitlibrary::UnitLibrary;
use crate::units::{check_jigs, compatibility, names_contain, Dependent};
use vstd::prelude::*;
use vstd::string::*;

verus! {

/// What a scenario or its description holds.
pub struct ScenarioView {
    pub id: UnitNameView,
    pub name: Seq<char>,
    pub description: Seq<char>,
    /// The jigs that the scenario works on; none means every jig.
    pub jigs: Seq<UnitNameView>,
    /// The tests that the scenario uses.
    pub tests: Seq<UnitNameView>,
}

/// The description of a scenario.
#[derive(Debug, PartialEq, Eq)]
pub struct ScenarioDescription {
    id: UnitName,
    name: String,
    description: String,
    jigs: Vec<UnitName>,
    tests: Vec<UnitName>,
}

impl View for ScenarioDescription {
    type V = ScenarioView;

    closed spec fn view(&self) -> ScenarioView {
        ScenarioView {
            id: self.id@,
            name: self.name@,
            description: self.description@,
            jigs: name_views(self.jigs@),
            tests: name_views(self.tests@),
        }
    }
}

/// A loaded scenario.
#[derive(Debug, PartialEq, Eq)]
pub struct Scenario {
    id: UnitName,
    name: String,
    description: String,
    jigs: Vec<UnitName>,
    tests: Vec<UnitName>,
}

impl View for Scenario {
    type V = ScenarioView;

    closed spec fn view(&self) -> ScenarioView {
        ScenarioView {
            id: self.id@,
            name: self.name@,
            description: self.description@,
            jigs: name_views(self.jigs@),
            tests: name_views(self.tests@),
        }
    }
}

impl ScenarioDescription {
    pub fn new(
        id: UnitName,
        name: &str,
        description: &str,
        jigs: Vec<UnitName>,
        tests: Vec<UnitName>,
    ) -> (scenario: Self)
        ensures
            scenario@ == (ScenarioView {
                id: id@,
                name: name@,
                description: description@,
                jigs: name_views(jigs@),
                tests: name_views(tests@),
            }),
    {
        ScenarioDescription {
            id,
            name: name.to_owned(),
            description: description.to_owned(),
            jigs,
            tests,
        }
    }

    pub fn id(&self) -> (id: &UnitName)
        ensures
            id@ == self@.id,
    {
        &self.id
    }

    /// Whether the scenario lists the jig `name`.
    pub fn supports_jig(&self, name: &UnitName) -> (r: bool)
        ensures
            r == self@.jigs.contains(name@),
    {
        names_contain(&self.jigs, name)
    }

    /// Whether the scenario can be loaded: it lists no jig, or one that it
    /// lists is loaded.
    pub fn is_compatible(&self, library: &UnitLibrary, config: &Config) -> (r: Result<
        (),
        UnitIncompatibleReason,
    >)
        requires
            library.tables_wf(),
        ensures
            r == compatibility(self@.jigs, library@.jigs.live),
    {
        check_jigs(&self.jigs, library)
    }

    /// The scenario that this description describes, if it is compatible.
    pub fn select(&self, library: &UnitLibrary, config: &Config) -> (r: Result<
        Scenario,
        UnitIncompatibleReason,
    >)
        requires
            library.tables_wf(),
        ensures
            match r {
                Ok(scenario) => compatibility(self@.jigs, library@.jigs.live).is_ok() && scenario@
                    == self@,
                Err(reason) => compatibility(self@.jigs, library@.jigs.live) == Err::<
                    (),
                    UnitIncompatibleReason,
                >(reason),
            },
    {
        match self.is_compatible(library, config) {
            Ok(()) => Ok(Scenario::new(self, library, config)),
            Err(reason) => Err(reason),
        }
    }
}

impl Dependent for ScenarioDescription {
    open spec fn depends_on(view: ScenarioView) -> Seq<UnitNameView> {
        view.jigs
    }

    fn depends(&self, name: &UnitName) -> (r: bool) {
        self.supports_jig(name)
    }
}

impl Scenario {
    pub fn new(description: &ScenarioDescription, library: &UnitLibrary, config: &Config) -> (scenario:
        Self)
        ensures
            scenario@ == description@,
    {
        Scenario {
            id: description.id.clone(),
            name: description.name.clone(),
            description: description.description.clone(),
            jigs: description.jigs.clone(),
            tests: description.tests.clone(),
        }
    }

    pub fn id(&self) -> (id: &UnitName)
        ensures
            id@ == self@.id,
    {
        &self.id
    }

    /// Whether the scenario uses the test `name`.
    pub fn uses_test(&self, name: &UnitName) -> (r: bool)
        ensures
            r == self@.tests.contains(name@),
    {
        names_contain(&self.tests, name)
    }
}

impl Dependent for Scenario {
    open spec fn depends_on(view: ScenarioView) -> Seq<UnitNameView> {
        view.tests
    }

    fn depends(&self, name: &UnitName) -> (r: bool) {
        self.uses_test(name)
    }
}

} // verus!
