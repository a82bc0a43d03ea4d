//! The unit library: the descriptions that came in, the units that are
//! loaded, and the rescan that brings the second in line with the first.

use crate::config::Config;
use crate::librarymodel::{
    affected, affected_upto, count_event, incompatible_event, load_one, load_upto, mark_all,
    mark_upto, selected_event, touches, unload_upto, KindView, LibraryView, Loaded, Marks,
    ProgressView, ReplyView, RequestView, RescanProgress,
};
use crate::text::push_decimal;
use crate::unit::{
    name_views, UnitActivateError, UnitDeactivateError, UnitIncompatibleReason, UnitKind, UnitName,
    UnitNameView,
};
use crate::unitbroadcaster::{
    deliver, lemma_deliver_nothing, lemma_deliver_twice, UnitBroadcaster, UnitCategoryEvent,
    UnitEvent, UnitEventView, UnitStatus, UnitStatusEvent, UnitStatusView,
};
use crate::units::interface::{is_launch_of, Interface, InterfaceDescription, Launch};
use crate::units::Dependent;
use crate::units::jig::{Jig, JigDescription};
use crate::units::scenario::{Scenario, ScenarioDescription};
use crate::units::test::{Test, TestDescription};
use crate::unittable::{TableView, UnitTable};
use vstd::prelude::*;
use vstd::string::*;

verus! {

/// The library of units.
pub struct UnitLibrary {
    broadcaster: UnitBroadcaster,
    config: Config,
    /// The label of each unit that the next rescan has to look at.
    unit_status: UnitTable<UnitStatus>,
    interface_descriptions: UnitTable<InterfaceDescription>,
    jig_descriptions: UnitTable<JigDescription>,
    scenario_descriptions: UnitTable<ScenarioDescription>,
    test_descriptions: UnitTable<TestDescription>,
    /// The names that the next rescan has to look at, by kind.
    dirty_interfaces: UnitTable<()>,
    dirty_jigs: UnitTable<()>,
    dirty_scenarios: UnitTable<()>,
    dirty_tests: UnitTable<()>,
    /// The loaded units, by kind.
    interfaces: UnitTable<Interface>,
    jigs: UnitTable<Jig>,
    scenarios: UnitTable<Scenario>,
    tests: UnitTable<Test>,
    progress: RescanProgress,
    /// The interface that is being started.
    candidate: Option<Interface>,
}

impl View for UnitLibrary {
    type V = LibraryView;

    closed spec fn view(&self) -> LibraryView {
        LibraryView {
            broadcaster: self.broadcaster@,
            unit_status: self.unit_status@,
            interfaces: KindView {
                descriptions: self.interface_descriptions@,
                dirty: self.dirty_interfaces@,
                live: self.interfaces@,
            },
            jigs: KindView {
                descriptions: self.jig_descriptions@,
                dirty: self.dirty_jigs@,
                live: self.jigs@,
            },
            scenarios: KindView {
                descriptions: self.scenario_descriptions@,
                dirty: self.dirty_scenarios@,
                live: self.scenarios@,
            },
            tests: KindView {
                descriptions: self.test_descriptions@,
                dirty: self.dirty_tests@,
                live: self.tests@,
            },
            progress: self.progress@,
            candidate: match self.candidate {
                Some(interface) => Some(interface@),
                None => None,
            },
        }
    }
}

/// The event that tells how many descriptions of `kind` there are.
fn count_of(kind: UnitKind, count: usize) -> (event: UnitEvent)
    ensures
        event@ == count_event(kind, count as nat),
{
    let mut text = "Number of ".to_owned();
    text.append(kind.as_str());
    text.append("s loaded: ");
    push_decimal(&mut text, count);
    UnitEvent::Category(UnitCategoryEvent::new(kind, text.as_str()))
}

impl UnitLibrary {
    /// Whether every table of the library is in order.
    pub closed spec fn tables_wf(&self) -> bool {
        &&& self.unit_status.wf()
        &&& self.interface_descriptions.wf()
        &&& self.jig_descriptions.wf()
        &&& self.scenario_descriptions.wf()
        &&& self.test_descriptions.wf()
        &&& self.dirty_interfaces.wf()
        &&& self.dirty_jigs.wf()
        &&& self.dirty_scenarios.wf()
        &&& self.dirty_tests.wf()
        &&& self.interfaces.wf()
        &&& self.jigs.wf()
        &&& self.scenarios.wf()
        &&& self.tests.wf()
    }

    /// The library's invariant: the tables are in order, and the contents
    /// meet the invariant of the model. Every library that `new` made and that
    /// only the functions of this type have changed meets it.
    pub open spec fn wf(&self) -> bool {
        self.tables_wf() && self@.wf()
    }

    /// The settings that the library was made with.
    pub closed spec fn spec_config(&self) -> Config {
        self.config
    }

    proof fn lemma_tables(&self)
        requires
            self.tables_wf(),
        ensures
            self@.tables_wf(),
    {
        self.unit_status.lemma_view_wf();
        self.interface_descriptions.lemma_view_wf();
        self.jig_descriptions.lemma_view_wf();
        self.scenario_descriptions.lemma_view_wf();
        self.test_descriptions.lemma_view_wf();
        self.dirty_interfaces.lemma_view_wf();
        self.dirty_jigs.lemma_view_wf();
        self.dirty_scenarios.lemma_view_wf();
        self.dirty_tests.lemma_view_wf();
        self.interfaces.lemma_view_wf();
        self.jigs.lemma_view_wf();
        self.scenarios.lemma_view_wf();
        self.tests.lemma_view_wf();
    }

    /// An empty library that publishes on `broadcaster`.
    pub fn new(broadcaster: UnitBroadcaster, config: Config) -> (library: Self)
        ensures
            library.wf(),
            library@ == LibraryView::empty(broadcaster@),
            library.spec_config() == config,
    {
        let library = UnitLibrary {
            broadcaster,
            config,
            unit_status: UnitTable::new(),
            interface_descriptions: UnitTable::new(),
            jig_descriptions: UnitTable::new(),
            scenario_descriptions: UnitTable::new(),
            test_descriptions: UnitTable::new(),
            dirty_interfaces: UnitTable::new(),
            dirty_jigs: UnitTable::new(),
            dirty_scenarios: UnitTable::new(),
            dirty_tests: UnitTable::new(),
            interfaces: UnitTable::new(),
            jigs: UnitTable::new(),
            scenarios: UnitTable::new(),
            tests: UnitTable::new(),
            progress: RescanProgress::Idle,
            candidate: None,
        };
        proof {
            library.lemma_tables();
        }
        library
    }

    /// Whether no rescan is under way.
    pub fn is_idle(&self) -> (r: bool)
        ensures
            r == (self@.progress is Idle),
    {
        match self.progress {
            RescanProgress::Idle => true,
            _ => false,
        }
    }

    pub fn config(&self) -> (config: &Config)
        ensures
            *config == self.spec_config(),
    {
        &self.config
    }

    /// Adds a subscriber to the library's events and returns its number.
    pub fn subscribe(&mut self) -> (subscriber: usize)
        requires
            old(self).wf(),
        ensures
            final(self).wf(),
            subscriber == old(self)@.broadcaster.len(),
            final(self)@ == (LibraryView {
                broadcaster: old(self)@.broadcaster.push(Some(Seq::empty())),
                ..old(self)@
            }),
            final(self).spec_config() == old(self).spec_config(),
    {
        let subscriber = self.broadcaster.subscribe();
        proof {
            old(self)@.lemma_wf_but_queues(self@);
        }
        subscriber
    }

    /// Lets a subscriber go.
    pub fn unsubscribe(&mut self, subscriber: usize)
        requires
            old(self).wf(),
        ensures
            final(self).wf(),
            final(self)@ == (LibraryView {
                broadcaster: if subscriber < old(self)@.broadcaster.len() {
                    old(self)@.broadcaster.update(subscriber as int, None)
                } else {
                    old(self)@.broadcaster
                },
                ..old(self)@
            }),
            final(self).spec_config() == old(self).spec_config(),
    {
        self.broadcaster.unsubscribe(subscriber);
        proof {
            old(self)@.lemma_wf_but_queues(self@);
        }
    }

    /// Takes the oldest event that waits for `subscriber`, if there is one.
    pub fn receive(&mut self, subscriber: usize) -> (event: Option<UnitEvent>)
        requires
            old(self).wf(),
        ensures
            final(self).wf(),
            final(self).spec_config() == old(self).spec_config(),
            match event {
                Some(e) => {
                    &&& subscriber < old(self)@.broadcaster.len()
                    &&& old(self)@.broadcaster[subscriber as int] matches Some(waiting)
                    &&& waiting.len() > 0
                    &&& e@ == waiting[0]
                    &&& final(self)@ == (LibraryView {
                        broadcaster: old(self)@.broadcaster.update(
                            subscriber as int,
                            Some(waiting.drop_first()),
                        ),
                        ..old(self)@
                    })
                },
                None => {
                    &&& final(self)@ == old(self)@
                    &&& subscriber < old(self)@.broadcaster.len() ==> (
                    old(self)@.broadcaster[subscriber as int] matches Some(waiting)
                        ==> waiting.len() == 0)
                },
            },
    {
        let event = self.broadcaster.receive(subscriber);
        proof {
            old(self)@.lemma_wf_but_queues(self@);
        }
        event
    }

    /// Whether the jig `id` is loaded.
    pub fn jig_is_loaded(&self, id: &UnitName) -> (r: bool)
        requires
            self.tables_wf(),
        ensures
            r == self@.jigs.live.contains(id@),
    {
        self.jigs.contains(id)
    }

    /// The loaded jig `id`.
    pub fn get_jig(&self, id: &UnitName) -> (jig: Option<&Jig>)
        requires
            self.tables_wf(),
        ensures
            match jig {
                Some(j) => self@.jigs.live.get(id@) == Some(j@),
                None => self@.jigs.live.get(id@).is_none(),
            },
    {
        self.jigs.get(id)
    }

    /// The loaded test `id`.
    pub fn get_test(&self, id: &UnitName) -> (test: Option<&Test>)
        requires
            self.tables_wf(),
        ensures
            match test {
                Some(t) => self@.tests.live.get(id@) == Some(t@),
                None => self@.tests.live.get(id@).is_none(),
            },
    {
        self.tests.get(id)
    }

    /// The loaded tests.
    pub fn get_tests(&self) -> (tests: &UnitTable<Test>)
        requires
            self.tables_wf(),
        ensures
            tests.wf(),
            tests@ == self@.tests.live,
    {
        &self.tests
    }

    /// The loaded scenario `id`.
    pub fn get_scenario(&self, id: &UnitName) -> (scenario: Option<&Scenario>)
        requires
            self.tables_wf(),
        ensures
            match scenario {
                Some(s) => self@.scenarios.live.get(id@) == Some(s@),
                None => self@.scenarios.live.get(id@).is_none(),
            },
    {
        self.scenarios.get(id)
    }

    /// The loaded interface `id`.
    pub fn get_interface(&self, id: &UnitName) -> (interface: Option<&Interface>)
        requires
            self.tables_wf(),
        ensures
            match interface {
                Some(i) => self@.interfaces.live.get(id@) == Some(i@),
                None => self@.interfaces.live.get(id@).is_none(),
            },
    {
        self.interfaces.get(id)
    }

    /// The label of the unit `id`, if the next rescan has to look at it.
    pub fn unit_status(&self, id: &UnitName) -> (status: Option<&UnitStatus>)
        requires
            self.tables_wf(),
        ensures
            match status {
                Some(s) => self@.unit_status.get(id@) == Some(s@),
                None => self@.unit_status.get(id@).is_none(),
            },
    {
        self.unit_status.get(id)
    }

    /// Whether the description of `id`, a unit of the kind that `id` names,
    /// is held.
    pub fn is_described(&self, id: &UnitName) -> (r: bool)
        requires
            self.tables_wf(),
        ensures
            r == self@.describes(id@),
    {
        match id.kind() {
            UnitKind::Jig => self.jig_descriptions.contains(id),
            UnitKind::Interface => self.interface_descriptions.contains(id),
            UnitKind::Test => self.test_descriptions.contains(id),
            UnitKind::Scenario => self.scenario_descriptions.contains(id),
        }
    }

    /// Whether the next rescan has to look at `id`, a unit of the kind that
    /// `id` names.
    pub fn is_dirty(&self, id: &UnitName) -> (r: bool)
        requires
            self.tables_wf(),
        ensures
            r == self@.dirties(id@),
    {
        match id.kind() {
            UnitKind::Jig => self.dirty_jigs.contains(id),
            UnitKind::Interface => self.dirty_interfaces.contains(id),
            UnitKind::Test => self.dirty_tests.contains(id),
            UnitKind::Scenario => self.dirty_scenarios.contains(id),
        }
    }

    /// Takes in the description of an interface, new or changed. The unit is
    /// marked dirty and labelled as being loaded (a new description) or
    /// updated (a known one), and the number of descriptions is published.
    /// The loaded units stay as they are until the next rescan.
    pub fn update_interface_description(&mut self, description: InterfaceDescription)
        requires
            old(self).wf(),
            old(self)@.progress is Idle,
            description@.id.kind == UnitKind::Interface,
        ensures
            final(self).wf(),
            final(self)@ == old(self)@.update_interface_description(description@),
            final(self).spec_config() == old(self).spec_config(),
    {
        let id = description.id().clone();
        self.dirty_interfaces.insert(id.clone(), ());
        let known = self.interface_descriptions.insert(id.clone(), description).is_some();
        let label = if known {
            UnitStatus::UpdateStarted
        } else {
            UnitStatus::LoadStarted
        };
        self.unit_status.insert(id.clone(), label);
        let event = count_of(UnitKind::Interface, self.interface_descriptions.len());
        self.broadcaster.broadcast(&event);
        proof {
            self.lemma_tables();
            old(self)@.lemma_update_interface_description(description@);
        }
    }

    /// Takes in the description of a jig, new or changed; see
    /// `update_interface_description`.
    pub fn update_jig_description(&mut self, description: JigDescription)
        requires
            old(self).wf(),
            old(self)@.progress is Idle,
            description@.id.kind == UnitKind::Jig,
        ensures
            final(self).wf(),
            final(self)@ == old(self)@.update_jig_description(description@),
            final(self).spec_config() == old(self).spec_config(),
    {
        let id = description.id().clone();
        self.dirty_jigs.insert(id.clone(), ());
        let known = self.jig_descriptions.insert(id.clone(), description).is_some();
        let label = if known {
            UnitStatus::UpdateStarted
        } else {
            UnitStatus::LoadStarted
        };
        self.unit_status.insert(id.clone(), label);
        let event = count_of(UnitKind::Jig, self.jig_descriptions.len());
        self.broadcaster.broadcast(&event);
        proof {
            self.lemma_tables();
            old(self)@.lemma_update_jig_description(description@);
        }
    }

    /// Takes in the description of a scenario, new or changed; see
    /// `update_interface_description`.
    pub fn update_scenario_description(&mut self, description: ScenarioDescription)
        requires
            old(self).wf(),
            old(self)@.progress is Idle,
            description@.id.kind == UnitKind::Scenario,
        ensures
            final(self).wf(),
            final(self)@ == old(self)@.update_scenario_description(description@),
            final(self).spec_config() == old(self).spec_config(),
    {
        let id = description.id().clone();
        self.dirty_scenarios.insert(id.clone(), ());
        let known = self.scenario_descriptions.insert(id.clone(), description).is_some();
        let label = if known {
            UnitStatus::UpdateStarted
        } else {
            UnitStatus::LoadStarted
        };
        self.unit_status.insert(id.clone(), label);
        let event = count_of(UnitKind::Scenario, self.scenario_descriptions.len());
        self.broadcaster.broadcast(&event);
        proof {
            self.lemma_tables();
            old(self)@.lemma_update_scenario_description(description@);
        }
    }

    /// Takes in the description of a test, new or changed; see
    /// `update_interface_description`.
    pub fn update_test_description(&mut self, description: TestDescription)
        requires
            old(self).wf(),
            old(self)@.progress is Idle,
            description@.id.kind == UnitKind::Test,
        ensures
            final(self).wf(),
            final(self)@ == old(self)@.update_test_description(description@),
            final(self).spec_config() == old(self).spec_config(),
    {
        let id = description.id().clone();
        self.dirty_tests.insert(id.clone(), ());
        let known = self.test_descriptions.insert(id.clone(), description).is_some();
        let label = if known {
            UnitStatus::UpdateStarted
        } else {
            UnitStatus::LoadStarted
        };
        self.unit_status.insert(id.clone(), label);
        let event = count_of(UnitKind::Test, self.test_descriptions.len());
        self.broadcaster.broadcast(&event);
        proof {
            self.lemma_tables();
            old(self)@.lemma_update_test_description(description@);
        }
    }

    /// Withdraws the description of the interface `id`. The unit is labelled
    /// as being unloaded, which is published, and marked dirty; the loaded
    /// interface stays until the next rescan.
    pub fn remove_interface(&mut self, id: &UnitName)
        requires
            old(self).wf(),
            old(self)@.progress is Idle,
            id@.kind == UnitKind::Interface,
        ensures
            final(self).wf(),
            final(self)@ == old(self)@.remove_interface(id@),
            final(self).spec_config() == old(self).spec_config(),
    {
        self.unit_status.insert(id.clone(), UnitStatus::UnloadStarted);
        self.publish(UnitEvent::Status(UnitStatusEvent::new_unloading(id)));
        self.interface_descriptions.remove(id);
        self.dirty_interfaces.insert(id.clone(), ());
        proof {
            self.lemma_tables();
            old(self)@.lemma_remove_interface(id@);
        }
    }

    /// Withdraws the description of the jig `id`; see `remove_interface`.
    pub fn remove_jig(&mut self, id: &UnitName)
        requires
            old(self).wf(),
            old(self)@.progress is Idle,
            id@.kind == UnitKind::Jig,
        ensures
            final(self).wf(),
            final(self)@ == old(self)@.remove_jig(id@),
            final(self).spec_config() == old(self).spec_config(),
    {
        self.unit_status.insert(id.clone(), UnitStatus::UnloadStarted);
        self.publish(UnitEvent::Status(UnitStatusEvent::new_unloading(id)));
        self.jig_descriptions.remove(id);
        self.dirty_jigs.insert(id.clone(), ());
        proof {
            self.lemma_tables();
            old(self)@.lemma_remove_jig(id@);
        }
    }

    /// Withdraws the description of the scenario `id`; see
    /// `remove_interface`.
    pub fn remove_scenario(&mut self, id: &UnitName)
        requires
            old(self).wf(),
            old(self)@.progress is Idle,
            id@.kind == UnitKind::Scenario,
        ensures
            final(self).wf(),
            final(self)@ == old(self)@.remove_scenario(id@),
            final(self).spec_config() == old(self).spec_config(),
    {
        self.unit_status.insert(id.clone(), UnitStatus::UnloadStarted);
        self.publish(UnitEvent::Status(UnitStatusEvent::new_unloading(id)));
        self.scenario_descriptions.remove(id);
        self.dirty_scenarios.insert(id.clone(), ());
        proof {
            self.lemma_tables();
            old(self)@.lemma_remove_scenario(id@);
        }
    }

    /// Withdraws the description of the test `id`; see `remove_interface`.
    pub fn remove_test(&mut self, id: &UnitName)
        requires
            old(self).wf(),
            old(self)@.progress is Idle,
            id@.kind == UnitKind::Test,
        ensures
            final(self).wf(),
            final(self)@ == old(self)@.remove_test(id@),
            final(self).spec_config() == old(self).spec_config(),
    {
        self.unit_status.insert(id.clone(), UnitStatus::UnloadStarted);
        self.publish(UnitEvent::Status(UnitStatusEvent::new_unloading(id)));
        self.test_descriptions.remove(id);
        self.dirty_tests.insert(id.clone(), ());
        proof {
            self.lemma_tables();
            old(self)@.lemma_remove_test(id@);
        }
    }
}

/// What a rescan asks of its caller before it can go on.
#[derive(Debug, PartialEq, Eq)]
pub enum RescanRequest {
    /// Stop the process of this interface, then answer with
    /// `RescanReply::Deactivated`.
    Deactivate(UnitName),
    /// Start this, then answer with `RescanReply::Activated`.
    Activate(Launch),
    /// Nothing: the rescan is complete.
    Finished,
}

impl View for RescanRequest {
    type V = RequestView;

    open spec fn view(&self) -> RequestView {
        match self {
            RescanRequest::Deactivate(name) => RequestView::Deactivate(name@),
            RescanRequest::Activate(launch) => RequestView::Activate(launch.id@),
            RescanRequest::Finished => RequestView::Finished,
        }
    }
}

/// The caller's answer to a request.
#[derive(Debug, PartialEq, Eq)]
pub enum RescanReply {
    /// How stopping the interface went.
    Deactivated(Result<(), UnitDeactivateError>),
    /// How starting the interface went.
    Activated(Result<(), UnitActivateError>),
}

impl View for RescanReply {
    type V = ReplyView;

    open spec fn view(&self) -> ReplyView {
        match self {
            RescanReply::Deactivated(Ok(())) => ReplyView::Deactivated(Ok(())),
            RescanReply::Deactivated(Err(e)) => ReplyView::Deactivated(Err(e.message@)),
            RescanReply::Activated(Ok(())) => ReplyView::Activated(Ok(())),
            RescanReply::Activated(Err(e)) => ReplyView::Activated(Err(e.message@)),
        }
    }
}

/// What selecting a description gave, seen through the view of the unit.
pub open spec fn selection_view<U: View>(selection: Option<Result<U, UnitIncompatibleReason>>) -> Option<
    Result<U::V, UnitIncompatibleReason>,
> {
    match selection {
        Some(Ok(unit)) => Some(Ok(unit@)),
        Some(Err(reason)) => Some(Err(reason)),
        None => None,
    }
}

/// The names of `table` whose value depends on one of `changed`.
fn affected_names<T: Dependent>(table: &UnitTable<T>, changed: &UnitTable<()>) -> (names: Vec<
    UnitName,
>)
    requires
        table.wf(),
        changed.wf(),
    ensures
        name_views(names@) == affected::<T>(table@, changed@.order),
{
    let mut names: Vec<UnitName> = Vec::new();
    let mut i: usize = 0;
    assert(name_views(names@) =~= Seq::empty());
    while i < table.len()
        invariant
            table.wf(),
            changed.wf(),
            i <= table@.order.len(),
            name_views(names@) == affected_upto::<T>(table@, changed@.order, i as int),
        decreases table@.order.len() - i,
    {
        let value = table.value_at(i);
        let ghost list = T::depends_on(value@);
        let mut hit = false;
        let mut j: usize = 0;
        while j < changed.len() && !hit
            invariant
                changed.wf(),
                j <= changed@.order.len(),
                list == T::depends_on(value@),
                hit ==> touches(list, changed@.order),
                !hit ==> forall|k: int| 0 <= k < j ==> !list.contains(#[trigger] changed@.order[k]),
            decreases changed@.order.len() - j,
        {
            if value.depends(changed.name_at(j)) {
                hit = true;
            }
            j += 1;
        }
        if hit {
            let name = table.name_at(i).clone();
            assert(name_views(names@.push(name)) =~= name_views(names@).push(name@));
            names.push(name);
        }
        i += 1;
    }
    names
}

/// Marks `names` dirty; see `mark`.
fn mark_names(dirty: &mut UnitTable<()>, status: &mut UnitTable<UnitStatus>, names: &Vec<UnitName>)
    requires
        old(dirty).wf(),
        old(status).wf(),
    ensures
        final(dirty).wf(),
        final(status).wf(),
        (Marks { dirty: final(dirty)@, status: final(status)@ }) == mark_all(
            Marks { dirty: old(dirty)@, status: old(status)@ },
            name_views(names@),
        ),
{
    let ghost start = Marks { dirty: dirty@, status: status@ };
    let mut i: usize = 0;
    while i < names.len()
        invariant
            dirty.wf(),
            status.wf(),
            i <= names.len(),
            (Marks { dirty: dirty@, status: status@ }) == mark_upto(
                start,
                name_views(names@),
                i as int,
            ),
        decreases names.len() - i,
    {
        let name = &names[i];
        assert(name_views(names@)[i as int] == name@);
        dirty.insert(name.clone(), ());
        let keep = match status.get(name) {
            Some(label) => label.started(),
            None => false,
        };
        if !keep {
            status.insert(name.clone(), UnitStatus::UpdateStarted);
        }
        i += 1;
    }
}

/// Unloads what is dirty and marked for unloading; see `unload_one`.
fn unload_names<U: View>(
    live: &mut UnitTable<U>,
    status: &mut UnitTable<UnitStatus>,
    dirty: &UnitTable<()>,
)
    requires
        old(live).wf(),
        old(status).wf(),
        dirty.wf(),
    ensures
        final(live).wf(),
        final(status).wf(),
        (Loaded { live: final(live)@, status: final(status)@, events: Seq::empty() }) == unload_upto(
            Loaded { live: old(live)@, status: old(status)@, events: Seq::empty() },
            dirty@.order,
            dirty@.order.len() as int,
        ),
{
    let ghost start = Loaded { live: live@, status: status@, events: Seq::empty() };
    let mut i: usize = 0;
    while i < dirty.len()
        invariant
            live.wf(),
            status.wf(),
            dirty.wf(),
            i <= dirty@.order.len(),
            (Loaded { live: live@, status: status@, events: Seq::empty() }) == unload_upto(
                start,
                dirty@.order,
                i as int,
            ),
        decreases dirty@.order.len() - i,
    {
        let name = dirty.name_at(i);
        let unload = match status.get(name) {
            Some(label) => label.asks_unload(),
            None => false,
        };
        if unload {
            live.remove(name);
            status.remove(name);
        }
        i += 1;
    }
}

/// Loads `name` if it is marked for that and publishes how it went; see
/// `load_one`.
fn install<U: View>(
    live: &mut UnitTable<U>,
    status: &mut UnitTable<UnitStatus>,
    broadcaster: &mut UnitBroadcaster,
    name: &UnitName,
    selection: Option<Result<U, UnitIncompatibleReason>>,
)
    requires
        old(live).wf(),
        old(status).wf(),
    ensures
        final(live).wf(),
        final(status).wf(),
        ({
            let after = load_one(
                Loaded { live: old(live)@, status: old(status)@, events: Seq::empty() },
                name@,
                selection_view(selection),
            );
            &&& final(live)@ == after.live
            &&& final(status)@ == after.status
            &&& final(broadcaster)@ == deliver(old(broadcaster)@, after.events)
        }),
{
    let load = match status.get(name) {
        Some(label) => label.asks_load(),
        None => false,
    };
    status.remove(name);
    proof {
        lemma_deliver_nothing(broadcaster@);
    }
    if load {
        match selection {
            Some(Ok(unit)) => {
                live.insert(name.clone(), unit);
                let event = UnitEvent::Status(UnitStatusEvent::new_selected(name));
                broadcaster.broadcast(&event);
                assert(Seq::<UnitEventView>::empty().push(selected_event(name@)) =~= seq![event@]);
            },
            Some(Err(reason)) => {
                let event = UnitEvent::Status(
                    UnitStatusEvent::new_unit_incompatible(name, reason.to_string()),
                );
                broadcaster.broadcast(&event);
                assert(Seq::<UnitEventView>::empty().push(incompatible_event(name@, reason))
                    =~= seq![event@]);
            },
            None => {},
        }
    }
}

/// The events of a load step do not depend on those that went before.
proof fn lemma_load_one_events<U>(
    s: Loaded<U>,
    name: UnitNameView,
    selection: Option<Result<U, UnitIncompatibleReason>>,
)
    ensures
        ({
            let alone = load_one(Loaded { events: Seq::empty(), ..s }, name, selection);
            load_one(s, name, selection) == (Loaded { events: s.events + alone.events, ..alone })
        }),
{
    let alone = load_one(Loaded { events: Seq::empty(), ..s }, name, selection);
    assert(load_one(s, name, selection).events =~= s.events + alone.events);
}

impl UnitLibrary {
    /// The start of a rescan: dirt spreads from jigs to what names
    /// them, and from tests to the loaded scenarios that use them.
    fn propagate(&mut self)
        requires
            old(self).tables_wf(),
        ensures
            final(self).tables_wf(),
            final(self)@ == old(self)@.propagate(),
            final(self).config == old(self).config,
    {
        let tests = affected_names::<TestDescription>(&self.test_descriptions, &self.dirty_jigs);
        mark_names(&mut self.dirty_tests, &mut self.unit_status, &tests);
        let scenarios = affected_names::<ScenarioDescription>(
            &self.scenario_descriptions,
            &self.dirty_jigs,
        );
        mark_names(&mut self.dirty_scenarios, &mut self.unit_status, &scenarios);
        let interfaces = affected_names::<InterfaceDescription>(
            &self.interface_descriptions,
            &self.dirty_jigs,
        );
        mark_names(&mut self.dirty_interfaces, &mut self.unit_status, &interfaces);
        let users = affected_names::<Scenario>(&self.scenarios, &self.dirty_tests);
        mark_names(&mut self.dirty_scenarios, &mut self.unit_status, &users);
    }

    /// Unloads the jigs, tests and scenarios that are marked for it.
    fn unload(&mut self)
        requires
            old(self).tables_wf(),
        ensures
            final(self).tables_wf(),
            final(self)@ == old(self)@.unload(),
            final(self).config == old(self).config,
    {
        unload_names(&mut self.jigs, &mut self.unit_status, &self.dirty_jigs);
        unload_names(&mut self.tests, &mut self.unit_status, &self.dirty_tests);
        unload_names(&mut self.scenarios, &mut self.unit_status, &self.dirty_scenarios);
    }

    /// Selects the dirty jig in place `i`, if it is marked for loading.
    fn select_jig(&self, i: usize) -> (selection: Option<Result<Jig, UnitIncompatibleReason>>)
        requires
            self.tables_wf(),
            i < self@.jigs.dirty.order.len(),
        ensures
            ({
                let name = self@.jigs.dirty.order[i as int];
                if self@.unit_status.contains(name) && self@.unit_status.entries[name].is_load() {
                    selection_view(selection) == (self@.jig_selector())(name)
                } else {
                    selection is None
                }
            }),
    {
        let name = self.dirty_jigs.name_at(i);
        let load = match self.unit_status.get(name) {
            Some(label) => label.asks_load(),
            None => false,
        };
        if !load {
            return None;
        }
        match self.jig_descriptions.get(name) {
            Some(description) => Some(description.select(self, &self.config)),
            None => None,
        }
    }

    /// Selects the dirty test in place `i`, if it is marked for loading.
    fn select_test(&self, i: usize) -> (selection: Option<Result<Test, UnitIncompatibleReason>>)
        requires
            self.tables_wf(),
            i < self@.tests.dirty.order.len(),
        ensures
            ({
                let name = self@.tests.dirty.order[i as int];
                if self@.unit_status.contains(name) && self@.unit_status.entries[name].is_load() {
                    selection_view(selection) == (self@.test_selector())(name)
                } else {
                    selection is None
                }
            }),
    {
        let name = self.dirty_tests.name_at(i);
        let load = match self.unit_status.get(name) {
            Some(label) => label.asks_load(),
            None => false,
        };
        if !load {
            return None;
        }
        match self.test_descriptions.get(name) {
            Some(description) => Some(description.select(self, &self.config)),
            None => None,
        }
    }

    /// Selects the dirty scenario in place `i`, if it is marked for loading.
    fn select_scenario(&self, i: usize) -> (selection: Option<
        Result<Scenario, UnitIncompatibleReason>,
    >)
        requires
            self.tables_wf(),
            i < self@.scenarios.dirty.order.len(),
        ensures
            ({
                let name = self@.scenarios.dirty.order[i as int];
                if self@.unit_status.contains(name) && self@.unit_status.entries[name].is_load() {
                    selection_view(selection) == (self@.scenario_selector())(name)
                } else {
                    selection is None
                }
            }),
    {
        let name = self.dirty_scenarios.name_at(i);
        let load = match self.unit_status.get(name) {
            Some(label) => label.asks_load(),
            None => false,
        };
        if !load {
            return None;
        }
        match self.scenario_descriptions.get(name) {
            Some(description) => Some(description.select(self, &self.config)),
            None => None,
        }
    }

    /// Loads the dirty jigs.
    fn load_jigs(&mut self)
        requires
            old(self).tables_wf(),
        ensures
            final(self).tables_wf(),
            final(self)@ == old(self)@.load_jigs(),
            final(self).config == old(self).config,
    {
        let ghost start = self@;
        let ghost names = start.jigs.dirty.order;
        let ghost first = Loaded {
            live: start.jigs.live,
            status: start.unit_status,
            events: Seq::<UnitEventView>::empty(),
        };
        let mut i: usize = 0;
        proof {
            lemma_deliver_nothing(start.broadcaster);
        }
        while i < self.dirty_jigs.len()
            invariant
                self.tables_wf(),
                self.config == old(self).config,
                start == old(self)@,
                names == start.jigs.dirty.order,
                first == (Loaded {
                    live: start.jigs.live,
                    status: start.unit_status,
                    events: Seq::<UnitEventView>::empty(),
                }),
                i <= names.len(),
                ({
                    let so_far = load_upto(first, names, start.jig_selector(), i as int);
                    self@ == (LibraryView {
                        jigs: KindView { live: so_far.live, ..start.jigs },
                        unit_status: so_far.status,
                        broadcaster: deliver(start.broadcaster, so_far.events),
                        ..start
                    })
                }),
            decreases names.len() - i,
        {
            let ghost so_far = load_upto(first, names, start.jig_selector(), i as int);
            let selection = self.select_jig(i);
            install(
                &mut self.jigs,
                &mut self.unit_status,
                &mut self.broadcaster,
                self.dirty_jigs.name_at(i),
                selection,
            );
            proof {
                lemma_load_one_events(so_far, names[i as int], selection_view(selection));
                lemma_load_one_events(
                    so_far,
                    names[i as int],
                    (start.jig_selector())(names[i as int]),
                );
                let alone = load_one(
                    Loaded { events: Seq::empty(), ..so_far },
                    names[i as int],
                    selection_view(selection),
                );
                lemma_deliver_twice(start.broadcaster, so_far.events, alone.events);
            }
            i += 1;
        }
        self.dirty_jigs.clear();
    }

    /// Loads the dirty tests.
    fn load_tests(&mut self)
        requires
            old(self).tables_wf(),
        ensures
            final(self).tables_wf(),
            final(self)@ == old(self)@.load_tests(),
            final(self).config == old(self).config,
    {
        let ghost start = self@;
        let ghost names = start.tests.dirty.order;
        let ghost first = Loaded {
            live: start.tests.live,
            status: start.unit_status,
            events: Seq::<UnitEventView>::empty(),
        };
        let mut i: usize = 0;
        proof {
            lemma_deliver_nothing(start.broadcaster);
        }
        while i < self.dirty_tests.len()
            invariant
                self.tables_wf(),
                self.config == old(self).config,
                start == old(self)@,
                names == start.tests.dirty.order,
                first == (Loaded {
                    live: start.tests.live,
                    status: start.unit_status,
                    events: Seq::<UnitEventView>::empty(),
                }),
                i <= names.len(),
                ({
                    let so_far = load_upto(first, names, start.test_selector(), i as int);
                    self@ == (LibraryView {
                        tests: KindView { live: so_far.live, ..start.tests },
                        unit_status: so_far.status,
                        broadcaster: deliver(start.broadcaster, so_far.events),
                        ..start
                    })
                }),
            decreases names.len() - i,
        {
            let ghost so_far = load_upto(first, names, start.test_selector(), i as int);
            let selection = self.select_test(i);
            install(
                &mut self.tests,
                &mut self.unit_status,
                &mut self.broadcaster,
                self.dirty_tests.name_at(i),
                selection,
            );
            proof {
                lemma_load_one_events(so_far, names[i as int], selection_view(selection));
                lemma_load_one_events(
                    so_far,
                    names[i as int],
                    (start.test_selector())(names[i as int]),
                );
                let alone = load_one(
                    Loaded { events: Seq::empty(), ..so_far },
                    names[i as int],
                    selection_view(selection),
                );
                lemma_deliver_twice(start.broadcaster, so_far.events, alone.events);
            }
            i += 1;
        }
        self.dirty_tests.clear();
    }

    /// Loads the dirty scenarios.
    fn load_scenarios(&mut self)
        requires
            old(self).tables_wf(),
        ensures
            final(self).tables_wf(),
            final(self)@ == old(self)@.load_scenarios(),
            final(self).config == old(self).config,
    {
        let ghost start = self@;
        let ghost names = start.scenarios.dirty.order;
        let ghost first = Loaded {
            live: start.scenarios.live,
            status: start.unit_status,
            events: Seq::<UnitEventView>::empty(),
        };
        let mut i: usize = 0;
        proof {
            lemma_deliver_nothing(start.broadcaster);
        }
        while i < self.dirty_scenarios.len()
            invariant
                self.tables_wf(),
                self.config == old(self).config,
                start == old(self)@,
                names == start.scenarios.dirty.order,
                first == (Loaded {
                    live: start.scenarios.live,
                    status: start.unit_status,
                    events: Seq::<UnitEventView>::empty(),
                }),
                i <= names.len(),
                ({
                    let so_far = load_upto(first, names, start.scenario_selector(), i as int);
                    self@ == (LibraryView {
                        scenarios: KindView { live: so_far.live, ..start.scenarios },
                        unit_status: so_far.status,
                        broadcaster: deliver(start.broadcaster, so_far.events),
                        ..start
                    })
                }),
            decreases names.len() - i,
        {
            let ghost so_far = load_upto(first, names, start.scenario_selector(), i as int);
            let selection = self.select_scenario(i);
            install(
                &mut self.scenarios,
                &mut self.unit_status,
                &mut self.broadcaster,
                self.dirty_scenarios.name_at(i),
                selection,
            );
            proof {
                lemma_load_one_events(so_far, names[i as int], selection_view(selection));
                lemma_load_one_events(
                    so_far,
                    names[i as int],
                    (start.scenario_selector())(names[i as int]),
                );
                let alone = load_one(
                    Loaded { events: Seq::empty(), ..so_far },
                    names[i as int],
                    selection_view(selection),
                );
                lemma_deliver_twice(start.broadcaster, so_far.events, alone.events);
            }
            i += 1;
        }
        self.dirty_scenarios.clear();
    }

    /// Publishes one event.
    fn publish(&mut self, event: UnitEvent)
        ensures
            final(self)@ == old(self)@.emit(seq![event@]),
            final(self).tables_wf() == old(self).tables_wf(),
            final(self).config == old(self).config,
    {
        self.broadcaster.broadcast(&event);
    }

    /// Drops the label of `name`.
    fn settle(&mut self, name: &UnitName)
        requires
            old(self).tables_wf(),
        ensures
            final(self).tables_wf(),
            final(self)@ == old(self)@.settle(name@),
            final(self).config == old(self).config,
    {
        self.unit_status.remove(name);
    }

    /// The end of a rescan; see `LibraryView::finish`.
    fn finish(&mut self)
        requires
            old(self).tables_wf(),
        ensures
            final(self).tables_wf(),
            final(self)@ == old(self)@.finish(),
            final(self).config == old(self).config,
    {
        self.dirty_interfaces.clear();
        self.progress = RescanProgress::Idle;
        self.candidate = None;
        self.load_tests();
        self.load_scenarios();
        self.publish(UnitEvent::RescanFinish);
    }

    /// Selects the dirty interface in place `i`. Returns the request to start
    /// it, or `None` where it is not to be started and the step goes on with
    /// the next interface.
    fn select_interface_at(&mut self, i: usize) -> (request: Option<RescanRequest>)
        requires
            old(self).tables_wf(),
            i < old(self)@.interfaces.dirty.order.len(),
            old(self)@.candidate is None,
        ensures
            final(self).tables_wf(),
            final(self).config == old(self).config,
            final(self)@.interfaces.dirty == old(self)@.interfaces.dirty,
            final(self)@.jigs.dirty == old(self)@.jigs.dirty,
            match request {
                Some(r) => {
                    &&& (final(self)@, r@) == old(self)@.select_interface(i as int)
                    &&& r matches RescanRequest::Activate(launch)
                    &&& final(self)@.candidate matches Some(c)
                    &&& is_launch_of(launch, c, final(self).config)
                    &&& final(self)@.progress == ProgressView::Activating(i as int)
                },
                None => {
                    &&& final(self)@.load_interfaces_from(i + 1) == old(self)@.select_interface(
                        i as int,
                    )
                    &&& final(self)@.candidate is None
                },
            },
    {
        let name = self.dirty_interfaces.name_at(i).clone();
        let selection = match self.interface_descriptions.get(&name) {
            Some(description) => Some(description.select(self, &self.config)),
            None => None,
        };
        match selection {
            None => {
                self.settle(&name);
                None
            },
            Some(Err(reason)) => {
                self.publish(
                    UnitEvent::Status(
                        UnitStatusEvent::new_unit_incompatible(&name, reason.to_string()),
                    ),
                );
                self.settle(&name);
                None
            },
            Some(Ok(interface)) => {
                self.publish(UnitEvent::Status(UnitStatusEvent::new_selected(&name)));
                let launch = interface.activate(&self.config);
                self.candidate = Some(interface);
                self.progress = RescanProgress::Activating(i);
                Some(RescanRequest::Activate(launch))
            },
        }
    }

    /// Loads the dirty interfaces from place `from` on; see
    /// `LibraryView::load_interfaces_from`.
    fn load_interfaces_from(&mut self, from: usize) -> (request: RescanRequest)
        requires
            old(self).tables_wf(),
            old(self)@.jigs.dirty.order.len() == 0,
            old(self)@.candidate is None,
        ensures
            final(self).tables_wf(),
            final(self).config == old(self).config,
            (final(self)@, request@) == old(self)@.load_interfaces_from(from as int),
            final(self).answers(request),
            request is Finished ==> final(self)@.nothing_dirty(),
    {
        let mut i: usize = from;
        while i < self.dirty_interfaces.len()
            invariant
                self.tables_wf(),
                self.config == old(self).config,
                self@.load_interfaces_from(i as int) == old(self)@.load_interfaces_from(from as int),
                self@.jigs.dirty.order.len() == 0,
                self@.candidate is None,
            decreases self@.interfaces.dirty.order.len() - i,
        {
            let name = self.dirty_interfaces.name_at(i).clone();
            let marked = match self.unit_status.get(&name) {
                Some(label) => label.asks_load(),
                None => false,
            };
            let ghost before = self@;
            if marked && self.interface_descriptions.contains(&name) {
                assert(before.loads_interface(name@));
                match self.interfaces.remove(&name) {
                    Some(_) => {
                        self.progress = RescanProgress::Reloading(i);
                        assert(self@ == (LibraryView {
                            progress: ProgressView::Reloading(i as int),
                            ..before.drop_interface(name@)
                        }));
                        return RescanRequest::Deactivate(name);
                    },
                    None => {
                        assert(self@.interfaces.live =~= before.interfaces.live);
                        assert(self@ == before);
                    },
                }
                match self.select_interface_at(i) {
                    Some(request) => {
                        return request;
                    },
                    None => {},
                }
            } else {
                assert(!before.loads_interface(name@));
                self.settle(&name);
            }
            i += 1;
        }
        self.finish();
        RescanRequest::Finished
    }

    /// Unloads the dirty interfaces from place `from`
    /// on; see `LibraryView::unload_interfaces_from`.
    fn unload_interfaces_from(&mut self, from: usize) -> (request: RescanRequest)
        requires
            old(self).tables_wf(),
            old(self)@.candidate is None,
        ensures
            final(self).tables_wf(),
            final(self).config == old(self).config,
            (final(self)@, request@) == old(self)@.unload_interfaces_from(from as int),
            final(self).answers(request),
            request is Finished ==> final(self)@.nothing_dirty(),
    {
        let mut i: usize = from;
        while i < self.dirty_interfaces.len()
            invariant
                self.tables_wf(),
                self.config == old(self).config,
                self@.unload_interfaces_from(i as int) == old(self)@.unload_interfaces_from(
                    from as int,
                ),
                self@.candidate is None,
            decreases self@.interfaces.dirty.order.len() - i,
        {
            let name = self.dirty_interfaces.name_at(i).clone();
            let marked = match self.unit_status.get(&name) {
                Some(label) => label.asks_unload(),
                None => false,
            };
            let ghost before = self@;
            if marked {
                assert(before.unit_status.get(name@) == Some(UnitStatusView::UnloadStarted));
                self.settle(&name);
                match self.interfaces.remove(&name) {
                    Some(_) => {
                        self.progress = RescanProgress::Unloading(i);
                        assert(self@ == (LibraryView {
                            progress: ProgressView::Unloading(i as int),
                            ..before.drop_interface(name@).settle(name@)
                        }));
                        return RescanRequest::Deactivate(name);
                    },
                    None => {
                        assert(self@.interfaces.live =~= before.interfaces.live);
                        assert(self@ == before.settle(name@));
                    },
                }
            } else {
                assert(before.unit_status.get(name@) != Some(UnitStatusView::UnloadStarted));
            }
            i += 1;
        }
        self.load_jigs();
        self.load_interfaces_from(0)
    }

    /// What the state of the library has to do with the request that it just
    /// made: after the last request no rescan is under way; a request to stop
    /// is about the dirty interface that the rescan has come to; a request to
    /// start comes with what starting the selected interface takes.
    pub open spec fn answers(&self, request: RescanRequest) -> bool {
        match request {
            RescanRequest::Finished => {
                &&& self@.progress is Idle
                &&& self@.candidate is None
            },
            RescanRequest::Deactivate(name) => {
                &&& self@.candidate is None
                &&& match self@.progress {
                    ProgressView::Unloading(i) => 0 <= i < self@.interfaces.dirty.order.len(),
                    ProgressView::Reloading(i) => 0 <= i < self@.interfaces.dirty.order.len()
                        && self@.jigs.dirty.order.len() == 0,
                    _ => false,
                }
            },
            RescanRequest::Activate(launch) => {
                &&& self@.candidate matches Some(c)
                &&& is_launch_of(launch, c, self.spec_config())
                &&& self@.progress matches ProgressView::Activating(i)
                &&& 0 <= i < self@.interfaces.dirty.order.len()
                &&& self@.jigs.dirty.order.len() == 0
            },
        }
    }

    /// The request that the library waits to have answered, once more.
    fn pending(&self) -> (request: RescanRequest)
        requires
            self.wf(),
        ensures
            request@ == self@.pending(),
            self.answers(request),
    {
        match self.progress {
            RescanProgress::Idle => RescanRequest::Finished,
            RescanProgress::Unloading(i) => RescanRequest::Deactivate(
                self.dirty_interfaces.name_at(i).clone(),
            ),
            RescanProgress::Reloading(i) => RescanRequest::Deactivate(
                self.dirty_interfaces.name_at(i).clone(),
            ),
            RescanProgress::Activating(i) => match &self.candidate {
                Some(interface) => RescanRequest::Activate(interface.activate(&self.config)),
                None => RescanRequest::Finished,
            },
        }
    }

    /// Begins a rescan and runs it up to the first interface that has to be
    /// stopped or started, or to its end. The start is announced; dirt
    /// spreads from jigs to what names them and from tests to the loaded
    /// scenarios that use them; what is marked for unloading is unloaded,
    /// jigs first, then tests, scenarios and interfaces; then jigs and
    /// interfaces are loaded, then tests, then scenarios, and the end is
    /// announced. The caller does what the request says and hands the
    /// outcome to `resume`, until the request is `Finished`.
    pub fn rescan(&mut self) -> (request: RescanRequest)
        requires
            old(self).wf(),
            old(self)@.progress is Idle,
        ensures
            final(self).wf(),
            final(self).spec_config() == old(self).spec_config(),
            (final(self)@, request@) == old(self)@.rescan(),
            final(self).answers(request),
            request is Finished ==> final(self)@.nothing_dirty() && final(self)@.no_labels(),
    {
        self.publish(UnitEvent::RescanStart);
        self.propagate();
        self.unload();
        let request = self.unload_interfaces_from(0);
        proof {
            old(self)@.lemma_rescan_wf();
        }
        request
    }

    /// Goes on with a rescan once the caller has done what the last request
    /// said. An answer that was not asked for changes nothing: the request
    /// is made again.
    pub fn resume(&mut self, reply: RescanReply) -> (request: RescanRequest)
        requires
            old(self).wf(),
        ensures
            final(self).wf(),
            final(self).spec_config() == old(self).spec_config(),
            (final(self)@, request@) == old(self)@.resume(reply@),
            final(self).answers(request),
            request is Finished && !(old(self)@.progress is Idle) ==> final(self)@.nothing_dirty()
                && final(self)@.no_labels(),
    {
        let count = self.dirty_interfaces.len();
        let request = match self.progress {
            RescanProgress::Idle => self.pending(),
            RescanProgress::Unloading(i) => match reply {
                RescanReply::Deactivated(outcome) => {
                    let name = self.dirty_interfaces.name_at(i).clone();
                    proof {
                        lemma_deliver_nothing(self@.broadcaster);
                    }
                    match outcome {
                        Ok(()) => {},
                        Err(e) => {
                            let mut reason = "Unable to deactivate: ".to_owned();
                            reason.append(e.message.as_str());
                            self.publish(
                                UnitEvent::Status(
                                    UnitStatusEvent::new_deactivate_failure(&name, reason),
                                ),
                            );
                        },
                    }
                    self.unload_interfaces_from(i + 1)
                },
                RescanReply::Activated(_) => self.pending(),
            },
            RescanProgress::Reloading(i) => match reply {
                RescanReply::Deactivated(outcome) => {
                    let name = self.dirty_interfaces.name_at(i).clone();
                    let ghost before = self@;
                    let event = match outcome {
                        Ok(()) => UnitStatusEvent::new_deactivate_success(
                            &name,
                            "Reloading interface".to_owned(),
                        ),
                        Err(e) => {
                            let mut reason = "Unable to deactivate: ".to_owned();
                            reason.append(e.message.as_str());
                            UnitStatusEvent::new_deactivate_failure(&name, reason)
                        },
                    };
                    let first = UnitEvent::Status(event);
                    let second = UnitEvent::Status(UnitStatusEvent::new_deselected(&name));
                    proof {
                        lemma_deliver_twice(before.broadcaster, seq![first@], seq![second@]);
                        assert(seq![first@] + seq![second@] =~= seq![first@].push(second@));
                    }
                    self.publish(first);
                    self.publish(second);
                    match self.select_interface_at(i) {
                        Some(request) => request,
                        None => self.load_interfaces_from(i + 1),
                    }
                },
                RescanReply::Activated(_) => self.pending(),
            },
            RescanProgress::Activating(i) => match reply {
                RescanReply::Activated(outcome) => {
                    let name = self.dirty_interfaces.name_at(i).clone();
                    let candidate = self.candidate.take();
                    match outcome {
                        Ok(()) => {
                            self.publish(UnitEvent::Status(UnitStatusEvent::new_active(&name)));
                            match candidate {
                                Some(mut interface) => {
                                    interface.activated();
                                    self.interfaces.insert(name.clone(), interface);
                                },
                                None => {},
                            }
                        },
                        Err(e) => {
                            self.publish(
                                UnitEvent::Status(
                                    UnitStatusEvent::new_active_failed(&name, e.message),
                                ),
                            );
                        },
                    }
                    self.settle(&name);
                    self.load_interfaces_from(i + 1)
                },
                RescanReply::Deactivated(_) => self.pending(),
            },
        };
        proof {
            old(self)@.lemma_resume_wf(reply@);
        }
        request
    }
}

} // verus!
