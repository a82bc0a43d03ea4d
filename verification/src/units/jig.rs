//! Jigs: the fixtures that the other units declare themselves compatible
//! with.

use crate::config::Config;
use crate::unit::{UnitIncompatibleReason, UnitName, UnitNameView};
use crate::unitlibrary::UnitLibrary;
use vstd::prelude::*;
use vstd::string::*;

verus! {

/// What a jig or its description holds.
pub struct JigView {
    pub id: UnitNameView,
    pub name: Seq<char>,
    pub description: Seq<char>,
}

/// The description of a jig.
#[derive(Debug, PartialEq, Eq)]
pub struct JigDescription {
    id: UnitName,
    name: String,
    description: String,
}

impl View for JigDescription {
    type V = JigView;

    closed spec fn view(&self) -> JigView {
        JigView { id: self.id@, name: self.name@, description: self.description@ }
    }
}

/// A loaded jig.
#[derive(Debug, PartialEq, Eq)]
pub struct Jig {
    id: UnitName,
    name: String,
    description: String,
}

impl View for Jig {
    type V = JigView;

    closed spec fn view(&self) -> JigView {
        JigView { id: self.id@, name: self.name@, description: self.description@ }
    }
}

impl JigDescription {
    pub fn new(id: UnitName, name: &str, description: &str) -> (jig: Self)
        ensures
            jig@ == (JigView { id: id@, name: name@, description: description@ }),
    {
        JigDescription { id, name: name.to_owned(), description: description.to_owned() }
    }

    pub fn id(&self) -> (id: &UnitName)
        ensures
            id@ == self@.id,
    {
        &self.id
    }

    /// A jig is compatible with every system.
    pub fn is_compatible(&self, library: &UnitLibrary, config: &Config) -> (r: Result<
        (),
        UnitIncompatibleReason,
    >)
        ensures
            r == Ok::<(), UnitIncompatibleReason>(()),
    {
        Ok(())
    }

    /// The jig that this description describes.
    pub fn select(&self, library: &UnitLibrary, config: &Config) -> (r: Result<
        Jig,
        UnitIncompatibleReason,
    >)
        ensures
            r matches Ok(jig) && jig@ == self@,
    {
        match self.is_compatible(library, config) {
            Ok(()) => Ok(Jig::new(self, library, config)),
            Err(reason) => Err(reason),
        }
    }
}

impl Jig {
    pub fn new(description: &JigDescription, library: &UnitLibrary, config: &Config) -> (jig: Self)
        ensures
            jig@ == description@,
    {
        Jig {
            id: description.id.clone(),
            name: description.name.clone(),
            description: description.description.clone(),
        }
    }

    pub fn id(&self) -> (id: &UnitName)
        ensures
            id@ == self@.id,
    {
        &self.id
    }
}

} // verus!
