//! Tests: runnable checks. The library loads them; it does not run them.

use crate::config::Config;
use crate::unit::{name_views, UnitIncompatibleReason, UnitName, UnitNameView};
use crate::unitlibrary::UnitLibrary;
use crate::units::{check_jigs, compatibility, names_contain, Dependent};
use vstd::prelude::*;
use vstd::string::*;

verus! {

/// What a test or its description holds.
pub struct TestView {
    pub id: UnitNameView,
    pub name: Seq<char>,
    pub description: Seq<char>,
    /// The jigs that the test works on; none means every jig.
    pub jigs: Seq<UnitNameView>,
}

/// The description of a test.
#[derive(Debug, PartialEq, Eq)]
pub struct TestDescription {
    id: UnitName,
    name: String,
    description: String,
    jigs: Vec<UnitName>,
}

impl View for TestDescription {
    type V = TestView;

    closed spec fn view(&self) -> TestView {
        TestView {
            id: self.id@,
            name: self.name@,
            description: self.description@,
            jigs: name_views(self.jigs@),
        }
    }
}

/// A loaded test.
#[derive(Debug, PartialEq, Eq)]
pub struct Test {
    id: UnitName,
    name: String,
    description: String,
    jigs: Vec<UnitName>,
}

impl View for Test {
    type V = TestView;

    closed spec fn view(&self) -> TestView {
        TestView {
            id: self.id@,
            name: self.name@,
            description: self.description@,
            jigs: name_views(self.jigs@),
        }
    }
}

impl TestDescription {
    pub fn new(id: UnitName, name: &str, description: &str, jigs: Vec<UnitName>) -> (test: Self)
        ensures
            test@ == (TestView {
                id: id@,
                name: name@,
                description: description@,
                jigs: name_views(jigs@),
            }),
    {
        TestDescription { id, name: name.to_owned(), description: description.to_owned(), jigs }
    }

    pub fn id(&self) -> (id: &UnitName)
        ensures
            id@ == self@.id,
    {
        &self.id
    }

    /// Whether the test lists the jig `name`.
    pub fn supports_jig(&self, name: &UnitName) -> (r: bool)
        ensures
            r == self@.jigs.contains(name@),
    {
        names_contain(&self.jigs, name)
    }

    /// Whether the test can be loaded: it lists no jig, or one that it lists
    /// is loaded.
    pub fn is_compatible(&self, library: &UnitLibrary, config: &Config) -> (r: Result<
        (),
        UnitIncompatibleReason,
    >)
        requires
            library.tables_wf(),
        ensures
            r == compatibility(self@.jigs, library@.jigs.live),
    {
        check_jigs(&self.jigs, library)
    }

    /// The test that this description describes, if it is compatible.
    pub fn select(&self, library: &UnitLibrary, config: &Config) -> (r: Result<
        Test,
        UnitIncompatibleReason,
    >)
        requires
            library.tables_wf(),
        ensures
            match r {
                Ok(test) => compatibility(self@.jigs, library@.jigs.live).is_ok() && test@ == self@,
                Err(reason) => compatibility(self@.jigs, library@.jigs.live) == Err::<
                    (),
                    UnitIncompatibleReason,
                >(reason),
            },
    {
        match self.is_compatible(library, config) {
            Ok(()) => Ok(Test::new(self, library, config)),
            Err(reason) => Err(reason),
        }
    }
}

impl Dependent for TestDescription {
    open spec fn depends_on(view: TestView) -> Seq<UnitNameView> {
        view.jigs
    }

    fn depends(&self, name: &UnitName) -> (r: bool) {
        self.supports_jig(name)
    }
}

impl Test {
    pub fn new(description: &TestDescription, library: &UnitLibrary, config: &Config) -> (test: Self)
        ensures
            test@ == description@,
    {
        Test {
            id: description.id.clone(),
            name: description.name.clone(),
            description: description.description.clone(),
            jigs: description.jigs.clone(),
        }
    }

    pub fn id(&self) -> (id: &UnitName)
        ensures
            id@ == self@.id,
    {
        &self.id
    }

    /// Whether the test lists the jig `name`.
    pub fn supports_jig(&self, name: &UnitName) -> (r: bool)
        ensures
            r == self@.jigs.contains(name@),
    {
        names_contain(&self.jigs, name)
    }
}

} // verus!
