//! The unit library as a mathematical state machine: what the library holds,
//! and what each of its operations makes of that.

use crate::text::decimal;
use crate::unit::{UnitIncompatibleReason, UnitKind, UnitNameView};
use crate::unitbroadcaster::{deliver, BroadcasterView, UnitEventView, UnitStatusView};
use crate::units::compatible;
use crate::units::interface::{
    selected_interface, Interface, InterfaceDescription, InterfaceDescriptionView, InterfaceView,
};
use crate::units::jig::JigView;
use crate::units::scenario::{Scenario, ScenarioDescription, ScenarioView};
use crate::units::test::{TestDescription, TestView};
use crate::units::Dependent;
use crate::unittable::TableView;
use vstd::prelude::*;

verus! {

/// What the library holds of one kind of unit.
#[verifier::ext_equal]
pub struct KindView<D, U> {
    /// The descriptions from which units of this kind can be loaded.
    pub descriptions: TableView<D>,
    /// The names that the next rescan has to look at.
    pub dirty: TableView<()>,
    /// The loaded units.
    pub live: TableView<U>,
}

impl<D, U> KindView<D, U> {
    pub open spec fn empty() -> Self {
        KindView {
            descriptions: TableView::empty(),
            dirty: TableView::empty(),
            live: TableView::empty(),
        }
    }

    pub open spec fn wf(self) -> bool {
        self.descriptions.wf() && self.dirty.wf() && self.live.wf()
    }

    /// The kind after `description` came in under `id`.
    pub open spec fn upsert(self, id: UnitNameView, description: D) -> Self {
        KindView {
            descriptions: self.descriptions.insert(id, description),
            dirty: self.dirty.insert(id, ()),
            ..self
        }
    }

    /// The kind after the description of `id` was withdrawn. The loaded unit
    /// stays until the next rescan.
    pub open spec fn withdraw(self, id: UnitNameView) -> Self {
        KindView {
            descriptions: self.descriptions.remove(id),
            dirty: self.dirty.insert(id, ()),
            ..self
        }
    }
}

/// Where a rescan stands between two calls.
#[derive(Clone, Copy, Debug, PartialEq, Eq, Structural)]
pub enum RescanProgress {
    /// No rescan is under way.
    Idle,
    /// An interface that is being unloaded is being stopped; the number is
    /// its place among the dirty interfaces.
    Unloading(usize),
    /// An interface that is being reloaded is being stopped.
    Reloading(usize),
    /// An interface is being started.
    Activating(usize),
}

/// Where a rescan stands, with the places as mathematical integers.
pub enum ProgressView {
    Idle,
    Unloading(int),
    Reloading(int),
    Activating(int),
}

impl View for RescanProgress {
    type V = ProgressView;

    open spec fn view(&self) -> ProgressView {
        match self {
            RescanProgress::Idle => ProgressView::Idle,
            RescanProgress::Unloading(i) => ProgressView::Unloading(*i as int),
            RescanProgress::Reloading(i) => ProgressView::Reloading(*i as int),
            RescanProgress::Activating(i) => ProgressView::Activating(*i as int),
        }
    }
}

/// What a rescan asks of its caller.
pub enum RequestView {
    /// Stop the process of this interface and say how that went.
    Deactivate(UnitNameView),
    /// Start the process of this interface and say how that went.
    Activate(UnitNameView),
    /// Nothing: the rescan is complete.
    Finished,
}

/// What the caller answers: how stopping or starting went, with the words of
/// the failure if it failed.
pub enum ReplyView {
    Deactivated(Result<(), Seq<char>>),
    Activated(Result<(), Seq<char>>),
}

/// The status table after `id` came in: a known description is updated, a
/// new one loaded.
pub open spec fn upsert_status(status: TableView<UnitStatusView>, known: bool, id: UnitNameView) -> TableView<
    UnitStatusView,
> {
    status.insert(
        id,
        if known {
            UnitStatusView::UpdateStarted
        } else {
            UnitStatusView::LoadStarted
        },
    )
}

/// The remark that goes out after a description of `kind` came in.
pub open spec fn count_text(kind: UnitKind, count: nat) -> Seq<char> {
    "Number of "@ + kind.text() + "s loaded: "@ + decimal(count)
}

/// The event that carries `count_text`.
pub open spec fn count_event(kind: UnitKind, count: nat) -> UnitEventView {
    UnitEventView::Category(kind, count_text(kind, count))
}

/// Whether `list` names one of `changed`.
pub open spec fn touches(list: Seq<UnitNameView>, changed: Seq<UnitNameView>) -> bool {
    exists|i: int| 0 <= i < changed.len() && list.contains(#[trigger] changed[i])
}

/// The names among the first `n` of `table` whose value depends on one of
/// `changed`, in the table's order.
pub open spec fn affected_upto<T: Dependent>(
    table: TableView<T::V>,
    changed: Seq<UnitNameView>,
    n: int,
) -> Seq<UnitNameView>
    decreases n,
{
    if n <= 0 {
        Seq::empty()
    } else {
        let before = affected_upto::<T>(table, changed, n - 1);
        let name = table.order[n - 1];
        if touches(T::depends_on(table.entries[name]), changed) {
            before.push(name)
        } else {
            before
        }
    }
}

/// The names of `table` whose value depends on one of `changed`.
pub open spec fn affected<T: Dependent>(table: TableView<T::V>, changed: Seq<UnitNameView>) -> Seq<
    UnitNameView,
> {
    affected_upto::<T>(table, changed, table.order.len() as int)
}

/// A dirty list with the status table that goes with it.
#[verifier::ext_equal]
pub struct Marks {
    pub dirty: TableView<()>,
    pub status: TableView<UnitStatusView>,
}

/// Marks `name` dirty. A unit that is already being loaded, updated or
/// unloaded keeps its label; any other becomes one that is being updated.
pub open spec fn mark(marks: Marks, name: UnitNameView) -> Marks {
    Marks {
        dirty: marks.dirty.insert(name, ()),
        status: if marks.status.contains(name) && marks.status.entries[name].is_started() {
            marks.status
        } else {
            marks.status.insert(name, UnitStatusView::UpdateStarted)
        },
    }
}

/// Marks the first `n` of `names`.
pub open spec fn mark_upto(marks: Marks, names: Seq<UnitNameView>, n: int) -> Marks
    decreases n,
{
    if n <= 0 {
        marks
    } else {
        mark(mark_upto(marks, names, n - 1), names[n - 1])
    }
}

/// Marks all of `names`.
pub open spec fn mark_all(marks: Marks, names: Seq<UnitNameView>) -> Marks {
    mark_upto(marks, names, names.len() as int)
}

/// The loaded units of one kind with the status table, and the events that
/// a step of the rescan has produced so far.
#[verifier::ext_equal]
pub struct Loaded<U> {
    pub live: TableView<U>,
    pub status: TableView<UnitStatusView>,
    pub events: Seq<UnitEventView>,
}

/// Unloads `name` if it is marked for that: the unit leaves the loaded units
/// and its label goes.
pub open spec fn unload_one<U>(s: Loaded<U>, name: UnitNameView) -> Loaded<U> {
    if s.status.get(name) == Some(UnitStatusView::UnloadStarted) {
        Loaded { live: s.live.remove(name), status: s.status.remove(name), ..s }
    } else {
        s
    }
}

/// Unloads among the first `n` of `names`.
pub open spec fn unload_upto<U>(s: Loaded<U>, names: Seq<UnitNameView>, n: int) -> Loaded<U>
    decreases n,
{
    if n <= 0 {
        s
    } else {
        unload_one(unload_upto(s, names, n - 1), names[n - 1])
    }
}

/// The event that `name` was selected.
pub open spec fn selected_event(name: UnitNameView) -> UnitEventView {
    UnitEventView::Status(name, UnitStatusView::Selected)
}

/// The event that `name` cannot be loaded.
pub open spec fn incompatible_event(name: UnitNameView, reason: UnitIncompatibleReason) -> UnitEventView {
    UnitEventView::Status(name, UnitStatusView::UnitIncompatible(reason.text()))
}

/// Loads `name` if it is marked for loading or updating and `selection` holds
/// what selecting its description gave (`None`: there is no description). A
/// selected unit replaces the loaded one; a refused one leaves the loaded
/// units as they are. Either way the label of `name` goes.
pub open spec fn load_one<U>(
    s: Loaded<U>,
    name: UnitNameView,
    selection: Option<Result<U, UnitIncompatibleReason>>,
) -> Loaded<U> {
    let status = s.status.remove(name);
    if s.status.contains(name) && s.status.entries[name].is_load() && selection is Some {
        match selection->0 {
            Ok(unit) => Loaded {
                live: s.live.insert(name, unit),
                status,
                events: s.events.push(selected_event(name)),
            },
            Err(reason) => Loaded {
                status,
                events: s.events.push(incompatible_event(name, reason)),
                ..s
            },
        }
    } else {
        Loaded { status, ..s }
    }
}

/// Loads among the first `n` of `names`.
pub open spec fn load_upto<U>(
    s: Loaded<U>,
    names: Seq<UnitNameView>,
    selection: spec_fn(UnitNameView) -> Option<Result<U, UnitIncompatibleReason>>,
    n: int,
) -> Loaded<U>
    decreases n,
{
    if n <= 0 {
        s
    } else {
        load_one(load_upto(s, names, selection, n - 1), names[n - 1], selection(names[n - 1]))
    }
}

/// What selecting a description gives: the unit, if the jigs allow it.
pub open spec fn select<U>(unit: U, jigs: Seq<UnitNameView>, loaded: TableView<JigView>) -> Result<
    U,
    UnitIncompatibleReason,
> {
    if compatible(jigs, loaded) {
        Ok(unit)
    } else {
        Err(UnitIncompatibleReason::IncompatibleJig)
    }
}

/// The note that goes out when an interface is stopped to be reloaded.
pub open spec fn reload_note() -> Seq<char> {
    "Reloading interface"@
}

/// The reason that goes out when an interface could not be stopped.
pub open spec fn deactivate_failure_text(why: Seq<char>) -> Seq<char> {
    "Unable to deactivate: "@ + why
}

/// The event that tells how stopping `name` went, if one is due: a failure
/// is always told, a success only when `told` is set.
pub open spec fn deactivate_events(name: UnitNameView, outcome: Result<(), Seq<char>>, told: bool) -> Seq<
    UnitEventView,
> {
    match outcome {
        Ok(()) => if told {
            seq![UnitEventView::Status(name, UnitStatusView::DeactivateSuccess(reload_note()))]
        } else {
            Seq::empty()
        },
        Err(why) => seq![
            UnitEventView::Status(
                name,
                UnitStatusView::DeactivateFailure(deactivate_failure_text(why)),
            ),
        ],
    }
}

/// What the library holds.
#[verifier::ext_equal]
pub struct LibraryView {
    /// The queues of the subscribers to the library's events.
    pub broadcaster: BroadcasterView,
    /// The label of each unit that the next rescan has to look at.
    pub unit_status: TableView<UnitStatusView>,
    pub interfaces: KindView<InterfaceDescriptionView, InterfaceView>,
    pub jigs: KindView<JigView, JigView>,
    pub scenarios: KindView<ScenarioView, ScenarioView>,
    pub tests: KindView<TestView, TestView>,
    /// Where the rescan stands.
    pub progress: ProgressView,
    /// The interface that is being started.
    pub candidate: Option<InterfaceView>,
}

impl LibraryView {
    /// The library with `events` published.
    pub open spec fn emit(self, events: Seq<UnitEventView>) -> LibraryView {
        LibraryView { broadcaster: deliver(self.broadcaster, events), ..self }
    }

    /// The library without the label of `name`.
    pub open spec fn settle(self, name: UnitNameView) -> LibraryView {
        LibraryView { unit_status: self.unit_status.remove(name), ..self }
    }

    pub open spec fn update_interface_description(self, d: InterfaceDescriptionView) -> LibraryView {
        let interfaces = self.interfaces.upsert(d.id, d);
        LibraryView {
            interfaces,
            unit_status: upsert_status(
                self.unit_status,
                self.interfaces.descriptions.contains(d.id),
                d.id,
            ),
            ..self
        }.emit(seq![count_event(UnitKind::Interface, interfaces.descriptions.order.len())])
    }

    pub open spec fn update_jig_description(self, d: JigView) -> LibraryView {
        let jigs = self.jigs.upsert(d.id, d);
        LibraryView {
            jigs,
            unit_status: upsert_status(self.unit_status, self.jigs.descriptions.contains(d.id), d.id),
            ..self
        }.emit(seq![count_event(UnitKind::Jig, jigs.descriptions.order.len())])
    }

    pub open spec fn update_scenario_description(self, d: ScenarioView) -> LibraryView {
        let scenarios = self.scenarios.upsert(d.id, d);
        LibraryView {
            scenarios,
            unit_status: upsert_status(
                self.unit_status,
                self.scenarios.descriptions.contains(d.id),
                d.id,
            ),
            ..self
        }.emit(seq![count_event(UnitKind::Scenario, scenarios.descriptions.order.len())])
    }

    pub open spec fn update_test_description(self, d: TestView) -> LibraryView {
        let tests = self.tests.upsert(d.id, d);
        LibraryView {
            tests,
            unit_status: upsert_status(self.unit_status, self.tests.descriptions.contains(d.id), d.id),
            ..self
        }.emit(seq![count_event(UnitKind::Test, tests.descriptions.order.len())])
    }

    /// The label and the event that go with the withdrawal of `id`.
    pub open spec fn unloading(self, id: UnitNameView) -> LibraryView {
        LibraryView {
            unit_status: self.unit_status.insert(id, UnitStatusView::UnloadStarted),
            ..self
        }.emit(seq![UnitEventView::Status(id, UnitStatusView::Unloading)])
    }

    pub open spec fn remove_interface(self, id: UnitNameView) -> LibraryView {
        LibraryView { interfaces: self.interfaces.withdraw(id), ..self.unloading(id) }
    }

    pub open spec fn remove_jig(self, id: UnitNameView) -> LibraryView {
        LibraryView { jigs: self.jigs.withdraw(id), ..self.unloading(id) }
    }

    pub open spec fn remove_scenario(self, id: UnitNameView) -> LibraryView {
        LibraryView { scenarios: self.scenarios.withdraw(id), ..self.unloading(id) }
    }

    pub open spec fn remove_test(self, id: UnitNameView) -> LibraryView {
        LibraryView { tests: self.tests.withdraw(id), ..self.unloading(id) }
    }

    /// The spreading of dirt, with which a rescan begins. Every test, scenario and interface
    /// whose description names a dirty jig becomes dirty; then every loaded
    /// scenario that uses a dirty test becomes dirty.
    pub open spec fn propagate(self) -> LibraryView {
        let jigs = self.jigs.dirty.order;
        let tests = mark_all(
            Marks { dirty: self.tests.dirty, status: self.unit_status },
            affected::<TestDescription>(self.tests.descriptions, jigs),
        );
        let scenarios = mark_all(
            Marks { dirty: self.scenarios.dirty, status: tests.status },
            affected::<ScenarioDescription>(self.scenarios.descriptions, jigs),
        );
        let interfaces = mark_all(
            Marks { dirty: self.interfaces.dirty, status: scenarios.status },
            affected::<InterfaceDescription>(self.interfaces.descriptions, jigs),
        );
        let users = mark_all(
            Marks { dirty: scenarios.dirty, status: interfaces.status },
            affected::<Scenario>(self.scenarios.live, tests.dirty.order),
        );
        LibraryView {
            tests: KindView { dirty: tests.dirty, ..self.tests },
            scenarios: KindView { dirty: users.dirty, ..self.scenarios },
            interfaces: KindView { dirty: interfaces.dirty, ..self.interfaces },
            unit_status: users.status,
            ..self
        }
    }

    /// The unloading of jigs, tests and scenarios, in this order: what is
    /// marked for unloading leaves the loaded units.
    pub open spec fn unload(self) -> LibraryView {
        let jigs = unload_upto(
            Loaded { live: self.jigs.live, status: self.unit_status, events: Seq::empty() },
            self.jigs.dirty.order,
            self.jigs.dirty.order.len() as int,
        );
        let tests = unload_upto(
            Loaded { live: self.tests.live, status: jigs.status, events: Seq::empty() },
            self.tests.dirty.order,
            self.tests.dirty.order.len() as int,
        );
        let scenarios = unload_upto(
            Loaded { live: self.scenarios.live, status: tests.status, events: Seq::empty() },
            self.scenarios.dirty.order,
            self.scenarios.dirty.order.len() as int,
        );
        LibraryView {
            jigs: KindView { live: jigs.live, ..self.jigs },
            tests: KindView { live: tests.live, ..self.tests },
            scenarios: KindView { live: scenarios.live, ..self.scenarios },
            unit_status: scenarios.status,
            ..self
        }
    }

    /// What selecting the jig `name` gives. A jig is compatible with every
    /// system.
    pub open spec fn jig_selector(self) -> spec_fn(UnitNameView) -> Option<
        Result<JigView, UnitIncompatibleReason>,
    > {
        |name: UnitNameView|
            match self.jigs.descriptions.get(name) {
                Some(d) => Some(Ok(d)),
                None => None,
            }
    }

    /// What selecting the test `name` gives.
    pub open spec fn test_selector(self) -> spec_fn(UnitNameView) -> Option<
        Result<TestView, UnitIncompatibleReason>,
    > {
        |name: UnitNameView|
            match self.tests.descriptions.get(name) {
                Some(d) => Some(select(d, d.jigs, self.jigs.live)),
                None => None,
            }
    }

    /// What selecting the scenario `name` gives.
    pub open spec fn scenario_selector(self) -> spec_fn(UnitNameView) -> Option<
        Result<ScenarioView, UnitIncompatibleReason>,
    > {
        |name: UnitNameView|
            match self.scenarios.descriptions.get(name) {
                Some(d) => Some(select(d, d.jigs, self.jigs.live)),
                None => None,
            }
    }

    /// The loading of jigs: the dirty jigs are loaded, and no jig is dirty
    /// after.
    pub open spec fn load_jigs(self) -> LibraryView {
        let loaded = load_upto(
            Loaded { live: self.jigs.live, status: self.unit_status, events: Seq::empty() },
            self.jigs.dirty.order,
            self.jig_selector(),
            self.jigs.dirty.order.len() as int,
        );
        LibraryView {
            jigs: KindView { live: loaded.live, dirty: TableView::empty(), ..self.jigs },
            unit_status: loaded.status,
            ..self
        }.emit(loaded.events)
    }

    /// The loading of tests: the dirty tests are loaded, and no test is dirty
    /// after.
    pub open spec fn load_tests(self) -> LibraryView {
        let loaded = load_upto(
            Loaded { live: self.tests.live, status: self.unit_status, events: Seq::empty() },
            self.tests.dirty.order,
            self.test_selector(),
            self.tests.dirty.order.len() as int,
        );
        LibraryView {
            tests: KindView { live: loaded.live, dirty: TableView::empty(), ..self.tests },
            unit_status: loaded.status,
            ..self
        }.emit(loaded.events)
    }

    /// The loading of scenarios: the dirty scenarios are loaded, and no scenario is
    /// dirty after.
    pub open spec fn load_scenarios(self) -> LibraryView {
        let loaded = load_upto(
            Loaded { live: self.scenarios.live, status: self.unit_status, events: Seq::empty() },
            self.scenarios.dirty.order,
            self.scenario_selector(),
            self.scenarios.dirty.order.len() as int,
        );
        LibraryView {
            scenarios: KindView { live: loaded.live, dirty: TableView::empty(), ..self.scenarios },
            unit_status: loaded.status,
            ..self
        }.emit(loaded.events)
    }

    /// The end of a rescan, once the last dirty interface is dealt with: no
    /// interface is dirty, tests and scenarios are loaded, and the rescan is
    /// declared finished.
    pub open spec fn finish(self) -> LibraryView {
        LibraryView {
            interfaces: KindView { dirty: TableView::empty(), ..self.interfaces },
            progress: ProgressView::Idle,
            candidate: None,
            ..self
        }.load_tests().load_scenarios().emit(seq![UnitEventView::RescanFinish])
    }

    /// The library with the loaded interface `name` taken out.
    pub open spec fn drop_interface(self, name: UnitNameView) -> LibraryView {
        LibraryView {
            interfaces: KindView { live: self.interfaces.live.remove(name), ..self.interfaces },
            ..self
        }
    }

    /// Whether the dirty interface `name` is to be loaded: it is marked for
    /// loading or updating, and it has a description.
    pub open spec fn loads_interface(self, name: UnitNameView) -> bool {
        &&& self.unit_status.contains(name)
        &&& self.unit_status.entries[name].is_load()
        &&& self.interfaces.descriptions.contains(name)
    }

    /// The loading of interfaces from the dirty interface in place `i` on, up to the
    /// next interface that has to be stopped or started, or to the end of the
    /// rescan. An interface to be loaded that is loaded already is taken out
    /// and has to be stopped first.
    pub open spec fn load_interfaces_from(self, i: int) -> (LibraryView, RequestView)
        decreases self.interfaces.dirty.order.len() - i, 1int,
    {
        if i < 0 || i >= self.interfaces.dirty.order.len() {
            (self.finish(), RequestView::Finished)
        } else {
            let name = self.interfaces.dirty.order[i];
            if self.loads_interface(name) {
                if self.interfaces.live.contains(name) {
                    (
                        LibraryView {
                            progress: ProgressView::Reloading(i),
                            ..self.drop_interface(name)
                        },
                        RequestView::Deactivate(name),
                    )
                } else {
                    self.select_interface(i)
                }
            } else {
                self.settle(name).load_interfaces_from(i + 1)
            }
        }
    }

    /// Selects the dirty interface in place `i`. A compatible one is
    /// announced and has to be started; an incompatible one is reported and
    /// the step goes on.
    pub open spec fn select_interface(self, i: int) -> (LibraryView, RequestView)
        decreases self.interfaces.dirty.order.len() - i, 0int,
    {
        if i < 0 || i >= self.interfaces.dirty.order.len() {
            (self.finish(), RequestView::Finished)
        } else {
            let name = self.interfaces.dirty.order[i];
            match self.interfaces.descriptions.get(name) {
                None => self.settle(name).load_interfaces_from(i + 1),
                Some(d) => if compatible(d.jigs, self.jigs.live) {
                    (
                        LibraryView {
                            progress: ProgressView::Activating(i),
                            candidate: Some(selected_interface(d)),
                            ..self.emit(seq![selected_event(name)])
                        },
                        RequestView::Activate(d.id),
                    )
                } else {
                    self.emit(
                        seq![incompatible_event(name, UnitIncompatibleReason::IncompatibleJig)],
                    ).settle(name).load_interfaces_from(i + 1)
                },
            }
        }
    }

    /// The unloading of interfaces, from the dirty interface in place `i`
    /// on, up to the next loaded interface that has to be stopped; after the
    /// last one the jigs are loaded and the loading of interfaces begins.
    pub open spec fn unload_interfaces_from(self, i: int) -> (LibraryView, RequestView)
        decreases self.interfaces.dirty.order.len() - i,
    {
        if i < 0 || i >= self.interfaces.dirty.order.len() {
            self.load_jigs().load_interfaces_from(0)
        } else {
            let name = self.interfaces.dirty.order[i];
            if self.unit_status.get(name) == Some(UnitStatusView::UnloadStarted) {
                if self.interfaces.live.contains(name) {
                    (
                        LibraryView {
                            progress: ProgressView::Unloading(i),
                            ..self.drop_interface(name).settle(name)
                        },
                        RequestView::Deactivate(name),
                    )
                } else {
                    self.settle(name).unload_interfaces_from(i + 1)
                }
            } else {
                self.unload_interfaces_from(i + 1)
            }
        }
    }

    /// A whole rescan up to its first request: the start is announced, dirt
    /// spreads to what depends on dirty units, and what is marked for
    /// unloading is unloaded.
    pub open spec fn rescan(self) -> (LibraryView, RequestView) {
        self.emit(seq![UnitEventView::RescanStart]).propagate().unload().unload_interfaces_from(0)
    }

    /// The request that the library waits to have answered.
    pub open spec fn pending(self) -> RequestView {
        match self.progress {
            ProgressView::Idle => RequestView::Finished,
            ProgressView::Unloading(i) => RequestView::Deactivate(
                self.interfaces.dirty.order[i],
            ),
            ProgressView::Reloading(i) => RequestView::Deactivate(
                self.interfaces.dirty.order[i],
            ),
            ProgressView::Activating(i) => RequestView::Activate(self.candidate->0.id),
        }
    }

    /// The library once the interface that was being started is dealt with:
    /// one that runs is loaded and announced as active, one that failed is
    /// reported and not loaded.
    pub open spec fn activated(self, i: int, outcome: Result<(), Seq<char>>) -> LibraryView {
        let name = self.interfaces.dirty.order[i];
        let next = LibraryView { candidate: None, ..self }.settle(name);
        match outcome {
            Ok(()) => LibraryView {
                interfaces: KindView {
                    live: self.interfaces.live.insert(
                        name,
                        InterfaceView { running: true, ..self.candidate->0 },
                    ),
                    ..self.interfaces
                },
                ..next
            }.emit(seq![UnitEventView::Status(name, UnitStatusView::Active)]),
            Err(why) => next.emit(seq![UnitEventView::Status(name, UnitStatusView::ActiveFailed(why))]),
        }
    }

    /// What an answer makes of a rescan that waits for one. An answer that
    /// was not asked for changes nothing, and the request stands.
    pub open spec fn resume(self, reply: ReplyView) -> (LibraryView, RequestView) {
        match (self.progress, reply) {
            (ProgressView::Unloading(i), ReplyView::Deactivated(outcome)) => self.emit(
                deactivate_events(self.interfaces.dirty.order[i], outcome, false),
            ).unload_interfaces_from(i + 1),
            (ProgressView::Reloading(i), ReplyView::Deactivated(outcome)) => {
                let name = self.interfaces.dirty.order[i];
                self.emit(
                    deactivate_events(name, outcome, true).push(
                        UnitEventView::Status(name, UnitStatusView::Deselected),
                    ),
                ).select_interface(i)
            },
            (ProgressView::Activating(i), ReplyView::Activated(outcome)) => self.activated(
                i,
                outcome,
            ).load_interfaces_from(i + 1),
            _ => (self, self.pending()),
        }
    }
}

impl LibraryView {
    /// A library without descriptions or units.
    pub open spec fn empty(broadcaster: BroadcasterView) -> LibraryView {
        LibraryView {
            broadcaster,
            unit_status: TableView::empty(),
            interfaces: KindView::empty(),
            jigs: KindView::empty(),
            scenarios: KindView::empty(),
            tests: KindView::empty(),
            progress: ProgressView::Idle,
            candidate: None,
        }
    }

    /// Whether every table is in order: no name twice.
    pub open spec fn tables_wf(self) -> bool {
        &&& self.unit_status.wf()
        &&& self.interfaces.wf()
        &&& self.jigs.wf()
        &&& self.scenarios.wf()
        &&& self.tests.wf()
    }

    /// Whether `name` is dirty under any kind.
    pub open spec fn is_dirty(self, name: UnitNameView) -> bool {
        ||| self.jigs.dirty.contains(name)
        ||| self.tests.dirty.contains(name)
        ||| self.scenarios.dirty.contains(name)
        ||| self.interfaces.dirty.contains(name)
    }

    /// Whether every dirty name has a label.
    pub open spec fn dirty_labelled(self) -> bool {
        forall|name: UnitNameView| #[trigger] self.is_dirty(name) ==> self.unit_status.contains(name)
    }

    /// Whether no name is dirty under any kind.
    pub open spec fn nothing_dirty(self) -> bool {
        &&& self.jigs.dirty.order.len() == 0
        &&& self.tests.dirty.order.len() == 0
        &&& self.scenarios.dirty.order.len() == 0
        &&& self.interfaces.dirty.order.len() == 0
    }

    /// Where nothing is dirty, every dirty name has a label.
    pub proof fn lemma_clean_labelled(self)
        requires
            self.tables_wf(),
            self.nothing_dirty(),
        ensures
            self.dirty_labelled(),
    {
        assert forall|name: UnitNameView| #[trigger] self.is_dirty(name) implies self.unit_status.contains(
            name,
        ) by {
            assert(!self.jigs.dirty.order.contains(name));
            assert(!self.tests.dirty.order.contains(name));
            assert(!self.scenarios.dirty.order.contains(name));
            assert(!self.interfaces.dirty.order.contains(name));
        }
    }

    /// Whether the description of `id` is held, under the kind that `id`
    /// names.
    pub open spec fn describes(self, id: UnitNameView) -> bool {
        match id.kind {
            UnitKind::Jig => self.jigs.descriptions.contains(id),
            UnitKind::Interface => self.interfaces.descriptions.contains(id),
            UnitKind::Test => self.tests.descriptions.contains(id),
            UnitKind::Scenario => self.scenarios.descriptions.contains(id),
        }
    }

    /// Whether `id` is dirty under the kind that it names.
    pub open spec fn dirties(self, id: UnitNameView) -> bool {
        match id.kind {
            UnitKind::Jig => self.jigs.dirty.contains(id),
            UnitKind::Interface => self.interfaces.dirty.contains(id),
            UnitKind::Test => self.tests.dirty.contains(id),
            UnitKind::Scenario => self.scenarios.dirty.contains(id),
        }
    }
}

} // verus!
