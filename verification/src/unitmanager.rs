//! The messages exchanged with interfaces: what an interface asks of the
//! runner, and what the runner tells an interface.

use crate::unit::{name_views, UnitName, UnitNameView};
use vstd::prelude::*;
use vstd::string::*;

verus! {

/// What an interface asked for.
#[derive(Debug, PartialEq, Eq)]
pub enum ManagerControlMessageContents {
    /// The interface has just started.
    InitialGreeting,
    /// Asks for the list of scenarios.
    Scenarios,
    /// Selects a scenario.
    Scenario(UnitName),
    /// The interface sent something that could not be read.
    Error(String),
    /// A verb that the runner does not know, with the rest of its line.
    Unimplemented(String, String),
}

/// `ManagerControlMessageContents` with its name and texts as mathematical
/// values.
pub enum ControlContentsView {
    InitialGreeting,
    Scenarios,
    Scenario(UnitNameView),
    Error(Seq<char>),
    Unimplemented(Seq<char>, Seq<char>),
}

impl View for ManagerControlMessageContents {
    type V = ControlContentsView;

    open spec fn view(&self) -> ControlContentsView {
        match self {
            ManagerControlMessageContents::InitialGreeting => ControlContentsView::InitialGreeting,
            ManagerControlMessageContents::Scenarios => ControlContentsView::Scenarios,
            ManagerControlMessageContents::Scenario(name) => ControlContentsView::Scenario(name@),
            ManagerControlMessageContents::Error(text) => ControlContentsView::Error(text@),
            ManagerControlMessageContents::Unimplemented(verb, rest) => ControlContentsView::Unimplemented(
                verb@,
                rest@,
            ),
        }
    }
}

/// A request on the control channel, tagged with the unit that sent it.
#[derive(Debug, PartialEq, Eq)]
pub struct ManagerControlMessage {
    pub sender: UnitName,
    pub contents: ManagerControlMessageContents,
}

impl ManagerControlMessage {
    pub fn new(sender: &UnitName, contents: ManagerControlMessageContents) -> (message: Self)
        ensures
            message.sender == *sender,
            message.contents == contents,
    {
        ManagerControlMessage { sender: sender.clone(), contents }
    }
}

/// What the runner tells an interface.
#[derive(Debug, PartialEq, Eq)]
pub enum ManagerStatusMessage {
    /// The jig that the runner works on.
    Jig(UnitName),
    /// A greeting that identifies the runner.
    Hello(String),
    /// The scenario that is selected, if one is.
    Scenario(Option<UnitName>),
    /// The scenarios that can be selected.
    Scenarios(Vec<UnitName>),
    /// The value of one field of one unit: class, field, name, value.
    Describe(String, String, String, String),
}

/// A `ManagerStatusMessage` with its names and texts as mathematical values.
pub enum StatusMessageView {
    Jig(UnitNameView),
    Hello(Seq<char>),
    Scenario(Option<UnitNameView>),
    Scenarios(Seq<UnitNameView>),
    Describe(Seq<char>, Seq<char>, Seq<char>, Seq<char>),
}

impl View for ManagerStatusMessage {
    type V = StatusMessageView;

    open spec fn view(&self) -> StatusMessageView {
        match self {
            ManagerStatusMessage::Jig(name) => StatusMessageView::Jig(name@),
            ManagerStatusMessage::Hello(id) => StatusMessageView::Hello(id@),
            ManagerStatusMessage::Scenario(name) => StatusMessageView::Scenario(
                match name {
                    Some(n) => Some(n@),
                    None => None,
                },
            ),
            ManagerStatusMessage::Scenarios(names) => StatusMessageView::Scenarios(name_views(names@)),
            ManagerStatusMessage::Describe(class, field, name, value) => StatusMessageView::Describe(
                class@,
                field@,
                name@,
                value@,
            ),
        }
    }
}

} // verus!
