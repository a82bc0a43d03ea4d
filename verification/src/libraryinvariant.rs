//! The invariant of the library's state machine, and why every operation
//! keeps it: what each step of a rescan does to a single name, and where a
//! rescan stands at each of its stops.

use crate::librarymodel::{
    affected, affected_upto, deactivate_events, incompatible_event, load_one, load_upto, mark, mark_all, mark_upto,
    selected_event, touches, unload_one, unload_upto, KindView, LibraryView, Loaded, Marks,
    ProgressView, ReplyView, RequestView,
};
use crate::unit::{UnitIncompatibleReason, UnitKind, UnitNameView};
use crate::unitbroadcaster::{
    deliver, lemma_deliver_nothing, lemma_deliver_twice, BroadcasterView, UnitEventView,
    UnitStatusView,
};
use crate::units::interface::{
    selected_interface, InterfaceDescription, InterfaceDescriptionView, InterfaceView,
};
use crate::units::jig::JigView;
use crate::units::scenario::{Scenario, ScenarioDescription, ScenarioView};
use crate::units::test::{TestDescription, TestView};
use crate::units::{compatible, Dependent};
use crate::unittable::TableView;
use vstd::prelude::*;

verus! {

/// The first `n` items hold what the first `n - 1` hold, and the item in
/// place `n - 1`.
pub proof fn lemma_take_contains<A>(s: Seq<A>, n: int)
    requires
        0 < n <= s.len(),
    ensures
        forall|x: A| #[trigger]
            s.take(n).contains(x) <==> (s.take(n - 1).contains(x) || x == s[n - 1]),
{
    assert forall|x: A| #[trigger]
        s.take(n).contains(x) <==> (s.take(n - 1).contains(x) || x == s[n - 1]) by {
        let shorter = s.take(n - 1);
        let longer = s.take(n);
        if longer.contains(x) {
            let i = choose|i: int| 0 <= i < longer.len() && longer[i] == x;
            if i < n - 1 {
                assert(shorter[i] == x);
            }
        }
        if shorter.contains(x) {
            let i = choose|i: int| 0 <= i < shorter.len() && shorter[i] == x;
            assert(longer[i] == x);
        }
        if x == s[n - 1] {
            assert(s.take(n)[n - 1] == x);
        }
    }
}

/// A name with a label that asks for loading.
pub open spec fn asks_load(status: TableView<UnitStatusView>, name: UnitNameView) -> bool {
    status.contains(name) && status.entries[name].is_load()
}

/// A name with one of the three labels that the library keeps.
pub open spec fn is_started(status: TableView<UnitStatusView>, name: UnitNameView) -> bool {
    status.contains(name) && status.entries[name].is_started()
}

/// What marking does to one name: a marked name is dirty, and has a label;
/// the label is the one that it had if that was one of loading, updating or
/// unloading, and else that of updating. Other names stay as they are.
pub proof fn lemma_mark_upto(marks: Marks, names: Seq<UnitNameView>, n: int)
    requires
        marks.dirty.wf(),
        marks.status.wf(),
        0 <= n <= names.len(),
    ensures
        ({
            let after = mark_upto(marks, names, n);
            &&& after.dirty.wf()
            &&& after.status.wf()
            &&& forall|x: UnitNameView| #[trigger]
                after.dirty.contains(x) <==> (marks.dirty.contains(x) || names.take(n).contains(x))
            &&& forall|x: UnitNameView| #[trigger]
                after.status.get(x) == if names.take(n).contains(x) && !is_started(marks.status, x) {
                    Some(UnitStatusView::UpdateStarted)
                } else {
                    marks.status.get(x)
                }
        }),
    decreases n,
{
    if n > 0 {
        lemma_mark_upto(marks, names, n - 1);
        lemma_take_contains(names, n);
        let before = mark_upto(marks, names, n - 1);
        let name = names[n - 1];
        let after = mark(before, name);
        before.dirty.lemma_insert_wf(name, ());
        before.status.lemma_insert_wf(name, UnitStatusView::UpdateStarted);
        assert forall|x: UnitNameView| #[trigger]
            after.dirty.contains(x) <==> (marks.dirty.contains(x) || names.take(n).contains(x)) by {
            assert(before.dirty.contains(x) <==> (marks.dirty.contains(x) || names.take(n - 1).contains(
                x,
            )));
        }
        assert forall|x: UnitNameView| #[trigger]
            after.status.get(x) == if names.take(n).contains(x) && !is_started(marks.status, x) {
                Some(UnitStatusView::UpdateStarted)
            } else {
                marks.status.get(x)
            } by {
            assert(before.status.get(x) == if names.take(n - 1).contains(x) && !is_started(
                marks.status,
                x,
            ) {
                Some(UnitStatusView::UpdateStarted)
            } else {
                marks.status.get(x)
            });
            assert(before.status.get(name) == if names.take(n - 1).contains(name) && !is_started(
                marks.status,
                name,
            ) {
                Some(UnitStatusView::UpdateStarted)
            } else {
                marks.status.get(name)
            });
        }
    } else {
        assert(names.take(0) =~= Seq::empty());
    }
}

/// What `affected_upto` holds: the names among the first `n` of the table
/// whose value depends on a changed name.
pub proof fn lemma_affected_upto<T: Dependent>(
    table: TableView<T::V>,
    changed: Seq<UnitNameView>,
    n: int,
)
    requires
        0 <= n <= table.order.len(),
    ensures
        forall|x: UnitNameView| #[trigger]
            affected_upto::<T>(table, changed, n).contains(x) <==> (table.order.take(n).contains(x)
                && touches(T::depends_on(table.entries[x]), changed)),
    decreases n,
{
    if n > 0 {
        lemma_affected_upto::<T>(table, changed, n - 1);
        lemma_take_contains(table.order, n);
        let before = affected_upto::<T>(table, changed, n - 1);
        let name = table.order[n - 1];
        let after = affected_upto::<T>(table, changed, n);
        assert forall|x: UnitNameView| #[trigger]
            after.contains(x) <==> (table.order.take(n).contains(x) && touches(
                T::depends_on(table.entries[x]),
                changed,
            )) by {
            assert(before.contains(x) <==> (table.order.take(n - 1).contains(x) && touches(
                T::depends_on(table.entries[x]),
                changed,
            )));
            if touches(T::depends_on(table.entries[name]), changed) {
                assert(after == before.push(name));
                if after.contains(x) {
                    let i = choose|i: int| 0 <= i < after.len() && after[i] == x;
                    if i < before.len() {
                        assert(before[i] == x);
                    }
                }
                if before.contains(x) {
                    let i = choose|i: int| 0 <= i < before.len() && before[i] == x;
                    assert(after[i] == x);
                }
                assert(after[before.len() as int] == name);
            }
        }
    } else {
        assert(table.order.take(0) =~= Seq::empty());
    }
}

/// What unloading does to one name: a listed name that is marked for
/// unloading leaves the loaded units and loses its label. Other names stay
/// as they are.
pub proof fn lemma_unload_upto<U>(s: Loaded<U>, names: Seq<UnitNameView>, n: int)
    requires
        s.live.wf(),
        s.status.wf(),
        0 <= n <= names.len(),
    ensures
        ({
            let after = unload_upto(s, names, n);
            &&& after.live.wf()
            &&& after.status.wf()
            &&& after.events == s.events
            &&& forall|x: UnitNameView| #[trigger]
                after.live.get(x) == if names.take(n).contains(x) && s.status.get(x) == Some(
                    UnitStatusView::UnloadStarted,
                ) {
                    None
                } else {
                    s.live.get(x)
                }
            &&& forall|x: UnitNameView| #[trigger]
                after.status.get(x) == if names.take(n).contains(x) && s.status.get(x) == Some(
                    UnitStatusView::UnloadStarted,
                ) {
                    None
                } else {
                    s.status.get(x)
                }
        }),
    decreases n,
{
    if n > 0 {
        lemma_unload_upto(s, names, n - 1);
        lemma_take_contains(names, n);
        let before = unload_upto(s, names, n - 1);
        let name = names[n - 1];
        let after = unload_one(before, name);
        before.live.lemma_remove_wf(name);
        before.status.lemma_remove_wf(name);
        let gone = |x: UnitNameView, k: int|
            names.take(k).contains(x) && s.status.get(x) == Some(UnitStatusView::UnloadStarted);
        assert forall|x: UnitNameView| #[trigger]
            after.live.get(x) == if gone(x, n) {
                None
            } else {
                s.live.get(x)
            } by {
            assert(before.live.get(x) == if gone(x, n - 1) {
                None
            } else {
                s.live.get(x)
            });
            assert(before.status.get(name) == if gone(name, n - 1) {
                None
            } else {
                s.status.get(name)
            });
        }
        assert forall|x: UnitNameView| #[trigger]
            after.status.get(x) == if gone(x, n) {
                None
            } else {
                s.status.get(x)
            } by {
            assert(before.status.get(x) == if gone(x, n - 1) {
                None
            } else {
                s.status.get(x)
            });
            assert(before.status.get(name) == if gone(name, n - 1) {
                None
            } else {
                s.status.get(name)
            });
        }
    } else {
        assert(names.take(0) =~= Seq::empty());
    }
}

/// The unit that a selection gave, if it gave one.
pub open spec fn selected_unit<U>(selection: Option<Result<U, UnitIncompatibleReason>>) -> Option<U> {
    match selection {
        Some(Ok(unit)) => Some(unit),
        _ => None,
    }
}

/// The unit that loading puts under `name`, if it puts one there: the label
/// of the name asks for loading, and its description was selected.
pub open spec fn loaded_unit<U>(
    status: TableView<UnitStatusView>,
    selection: spec_fn(UnitNameView) -> Option<Result<U, UnitIncompatibleReason>>,
    name: UnitNameView,
) -> Option<U> {
    if asks_load(status, name) {
        selected_unit(selection(name))
    } else {
        None
    }
}

/// Whether the event tells how the loading of a unit went.
pub open spec fn is_load_report(event: UnitEventView) -> bool {
    event matches UnitEventView::Status(_, status) && (status is Selected
        || status is UnitIncompatible)
}

/// What loading does to one name: a listed name loses its label; if the
/// label asked for loading and the description was selected, the unit is
/// the loaded one. Other names stay as they are. The events of the step tell
/// how loadings went, and for each selected unit there is one.
pub proof fn lemma_load_upto<U>(
    s: Loaded<U>,
    names: Seq<UnitNameView>,
    selection: spec_fn(UnitNameView) -> Option<Result<U, UnitIncompatibleReason>>,
    n: int,
)
    requires
        s.live.wf(),
        s.status.wf(),
        names.no_duplicates(),
        0 <= n <= names.len(),
    ensures
        ({
            let after = load_upto(s, names, selection, n);
            &&& after.live.wf()
            &&& after.status.wf()
            &&& forall|x: UnitNameView| #[trigger]
                after.status.get(x) == if names.take(n).contains(x) {
                    None
                } else {
                    s.status.get(x)
                }
            &&& forall|x: UnitNameView| #[trigger]
                after.live.get(x) == if names.take(n).contains(x) && loaded_unit(
                    s.status,
                    selection,
                    x,
                ) is Some {
                    loaded_unit(s.status, selection, x)
                } else {
                    s.live.get(x)
                }
            &&& after.events.len() >= s.events.len()
            &&& after.events.take(s.events.len() as int) == s.events
            &&& forall|k: int|
                s.events.len() <= k < after.events.len() ==> is_load_report(#[trigger] after.events[k])
            &&& forall|x: UnitNameView|
                names.take(n).contains(x) && loaded_unit(s.status, selection, x) is Some
                    ==> after.events.skip(s.events.len() as int).contains(#[trigger] selected_event(x))
        }),
    decreases n,
{
    if n > 0 {
        lemma_load_upto(s, names, selection, n - 1);
        lemma_take_contains(names, n);
        let before = load_upto(s, names, selection, n - 1);
        let name = names[n - 1];
        let after = load_one(before, name, selection(name));
        before.status.lemma_remove_wf(name);
        if selected_unit(selection(name)) is Some {
            before.live.lemma_insert_wf(name, selected_unit(selection(name))->0);
        }
        assert(!names.take(n - 1).contains(name)) by {
            let shorter = names.take(n - 1);
            if shorter.contains(name) {
                let i = choose|i: int| 0 <= i < shorter.len() && shorter[i] == name;
                assert(names[i] == names[n - 1]);
            }
        }
        assert(before.status.get(name) == if names.take(n - 1).contains(name) {
            None
        } else {
            s.status.get(name)
        });
        assert forall|x: UnitNameView| #[trigger]
            after.status.get(x) == if names.take(n).contains(x) {
                None
            } else {
                s.status.get(x)
            } by {
            assert(before.status.get(x) == if names.take(n - 1).contains(x) {
                None
            } else {
                s.status.get(x)
            });
        }
        assert forall|x: UnitNameView| #[trigger]
            after.live.get(x) == if names.take(n).contains(x) && loaded_unit(s.status, selection, x)
                is Some {
                loaded_unit(s.status, selection, x)
            } else {
                s.live.get(x)
            } by {
            assert(before.live.get(x) == if names.take(n - 1).contains(x) && loaded_unit(
                s.status,
                selection,
                x,
            ) is Some {
                loaded_unit(s.status, selection, x)
            } else {
                s.live.get(x)
            });
        }
        assert(after.events.take(s.events.len() as int) =~= before.events.take(
            s.events.len() as int,
        ));
        assert forall|x: UnitNameView|
            names.take(n).contains(x) && loaded_unit(s.status, selection, x) is Some implies after.events.skip(
            s.events.len() as int,
        ).contains(#[trigger] selected_event(x)) by {
            let base = s.events.len() as int;
            if x == name {
                assert(after.events == before.events.push(selected_event(name)));
                assert(after.events.skip(base)[before.events.len() - base] == selected_event(x));
            } else {
                assert(names.take(n - 1).contains(x));
                assert(before.events.skip(base).contains(selected_event(x)));
                let i = choose|i: int|
                    0 <= i < before.events.skip(base).len() && before.events.skip(base)[i]
                        == selected_event(x);
                assert(after.events.skip(base)[i] == selected_event(x));
            }
        }
    } else {
        assert(names.take(0) =~= Seq::empty());
        assert(s.events.take(s.events.len() as int) =~= s.events);
    }
}

impl<D, U> KindView<D, U> {
    /// Whether the kind holds `name` in any of its tables.
    pub open spec fn holds(self, name: UnitNameView) -> bool {
        self.descriptions.contains(name) || self.dirty.contains(name) || self.live.contains(name)
    }

    /// Whether every name that the kind holds is of the kind `kind`.
    pub open spec fn only(self, kind: UnitKind) -> bool {
        forall|name: UnitNameView| #[trigger] self.holds(name) ==> name.kind == kind
    }
}

impl LibraryView {
    /// Whether every name stands under its own kind.
    pub open spec fn sorted(self) -> bool {
        &&& self.jigs.only(UnitKind::Jig)
        &&& self.tests.only(UnitKind::Test)
        &&& self.scenarios.only(UnitKind::Scenario)
        &&& self.interfaces.only(UnitKind::Interface)
    }

    /// Whether every label is one of the three that the library keeps: that
    /// of loading, of updating or of unloading.
    pub open spec fn labels_started(self) -> bool {
        forall|name: UnitNameView| #[trigger]
            self.unit_status.contains(name) ==> self.unit_status.entries[name].is_started()
    }

    /// Whether only names without a description are marked for unloading.
    pub open spec fn unloads_withdrawn(self) -> bool {
        forall|name: UnitNameView| #[trigger]
            self.describes(name) ==> self.unit_status.get(name) != Some(
                UnitStatusView::UnloadStarted,
            )
    }

    /// Whether every name with a label is dirty.
    pub open spec fn labels_dirty(self) -> bool {
        forall|name: UnitNameView| #[trigger] self.unit_status.contains(name) ==> self.dirties(name)
    }

    /// Whether `name` still waits to be loaded by a rescan that has loaded
    /// the jigs and has come to the dirty interface in place `i`.
    pub open spec fn awaits_load(self, name: UnitNameView, i: int) -> bool {
        match name.kind {
            UnitKind::Jig => false,
            UnitKind::Test => self.tests.dirty.contains(name),
            UnitKind::Scenario => self.scenarios.dirty.contains(name),
            UnitKind::Interface => self.interfaces.dirty.order.skip(i).contains(name),
        }
    }

    /// Whether every name with a label still waits to be loaded.
    pub open spec fn labels_pending(self, i: int) -> bool {
        forall|name: UnitNameView| #[trigger] self.unit_status.contains(name) ==> self.awaits_load(name, i)
    }

    /// Whether a dirty jig makes `name` dirty: `name` is a described test,
    /// scenario or interface whose description names a dirty jig.
    pub open spec fn jig_spreads_to(self, name: UnitNameView) -> bool {
        let jigs = self.jigs.dirty.order;
        ||| self.tests.descriptions.contains(name) && touches(
            self.tests.descriptions.entries[name].jigs,
            jigs,
        )
        ||| self.scenarios.descriptions.contains(name) && touches(
            self.scenarios.descriptions.entries[name].jigs,
            jigs,
        )
        ||| self.interfaces.descriptions.contains(name) && touches(
            self.interfaces.descriptions.entries[name].jigs,
            jigs,
        )
    }

    /// Whether a dirty test makes `name` dirty: `name` is a loaded scenario
    /// that uses a test that is dirty once the dirt of the jigs has spread.
    pub open spec fn test_spreads_to(self, name: UnitNameView) -> bool {
        &&& self.scenarios.live.contains(name)
        &&& exists|test: UnitNameView|
            #![trigger self.scenarios.live.entries[name].tests.contains(test)]
            self.scenarios.live.entries[name].tests.contains(test) && (self.tests.dirty.contains(test)
                || self.jig_spreads_to(test) && self.tests.descriptions.contains(test))
    }

    /// Whether the spreading of dirt at the start of a rescan makes `name`
    /// dirty.
    pub open spec fn spreads_to(self, name: UnitNameView) -> bool {
        self.jig_spreads_to(name) || self.test_spreads_to(name)
    }
}

/// A name of a well-formed table is in its order, and the other way round.
pub proof fn lemma_table_order<T>(table: TableView<T>, name: UnitNameView)
    requires
        table.wf(),
    ensures
        table.contains(name) <==> table.order.contains(name),
        table.order.take(table.order.len() as int) == table.order,
{
    assert(table.order.take(table.order.len() as int) =~= table.order);
}

/// What the spreading of dirt does: it touches only dirty lists and labels.
/// A name is dirty after it if it was before or the dirt spread to it; a
/// name to which it spread has a label, its own if that was one of the three
/// that the library keeps, else that of updating; other labels stay.
pub proof fn lemma_propagate(s: LibraryView)
    requires
        s.tables_wf(),
        s.sorted(),
    ensures
        ({
            let p = s.propagate();
            &&& p.tables_wf()
            &&& p.sorted()
            &&& p.broadcaster == s.broadcaster
            &&& p.progress == s.progress
            &&& p.candidate == s.candidate
            &&& p.jigs == s.jigs
            &&& p.tests.descriptions == s.tests.descriptions
            &&& p.tests.live == s.tests.live
            &&& p.scenarios.descriptions == s.scenarios.descriptions
            &&& p.scenarios.live == s.scenarios.live
            &&& p.interfaces.descriptions == s.interfaces.descriptions
            &&& p.interfaces.live == s.interfaces.live
            &&& forall|x: UnitNameView| #[trigger]
                p.dirties(x) <==> (s.dirties(x) || s.spreads_to(x))
            &&& forall|x: UnitNameView| #[trigger]
                p.unit_status.get(x) == if s.spreads_to(x) && !is_started(s.unit_status, x) {
                    Some(UnitStatusView::UpdateStarted)
                } else {
                    s.unit_status.get(x)
                }
        }),
{
    let jigs = s.jigs.dirty.order;
    let names1 = affected::<TestDescription>(s.tests.descriptions, jigs);
    let m0 = Marks { dirty: s.tests.dirty, status: s.unit_status };
    let m1 = mark_all(m0, names1);
    let names2 = affected::<ScenarioDescription>(s.scenarios.descriptions, jigs);
    let m2 = mark_all(Marks { dirty: s.scenarios.dirty, status: m1.status }, names2);
    let names3 = affected::<InterfaceDescription>(s.interfaces.descriptions, jigs);
    let m3 = mark_all(Marks { dirty: s.interfaces.dirty, status: m2.status }, names3);
    let names4 = affected::<Scenario>(s.scenarios.live, m1.dirty.order);
    let m4 = mark_all(Marks { dirty: m2.dirty, status: m3.status }, names4);
    let p = s.propagate();

    lemma_affected_upto::<TestDescription>(s.tests.descriptions, jigs, s.tests.descriptions.order.len() as int);
    lemma_mark_upto(m0, names1, names1.len() as int);
    lemma_affected_upto::<ScenarioDescription>(
        s.scenarios.descriptions,
        jigs,
        s.scenarios.descriptions.order.len() as int,
    );
    lemma_mark_upto(Marks { dirty: s.scenarios.dirty, status: m1.status }, names2, names2.len() as int);
    lemma_affected_upto::<InterfaceDescription>(
        s.interfaces.descriptions,
        jigs,
        s.interfaces.descriptions.order.len() as int,
    );
    lemma_mark_upto(Marks { dirty: s.interfaces.dirty, status: m2.status }, names3, names3.len() as int);
    lemma_affected_upto::<Scenario>(s.scenarios.live, m1.dirty.order, s.scenarios.live.order.len() as int);
    lemma_mark_upto(Marks { dirty: m2.dirty, status: m3.status }, names4, names4.len() as int);
    assert(names1.take(names1.len() as int) =~= names1);
    assert(names2.take(names2.len() as int) =~= names2);
    assert(names3.take(names3.len() as int) =~= names3);
    assert(names4.take(names4.len() as int) =~= names4);

    // What each list of names holds.
    assert forall|x: UnitNameView| names1.contains(x) <==> (s.tests.descriptions.contains(x)
        && touches(s.tests.descriptions.entries[x].jigs, jigs)) by {
        lemma_table_order(s.tests.descriptions, x);
    }
    assert forall|x: UnitNameView| names2.contains(x) <==> (s.scenarios.descriptions.contains(x)
        && touches(s.scenarios.descriptions.entries[x].jigs, jigs)) by {
        lemma_table_order(s.scenarios.descriptions, x);
    }
    assert forall|x: UnitNameView| names3.contains(x) <==> (s.interfaces.descriptions.contains(x)
        && touches(s.interfaces.descriptions.entries[x].jigs, jigs)) by {
        lemma_table_order(s.interfaces.descriptions, x);
    }
    assert forall|x: UnitNameView| names4.contains(x) <==> s.test_spreads_to(x) by {
        lemma_table_order(s.scenarios.live, x);
        if s.scenarios.live.contains(x) {
            let uses = s.scenarios.live.entries[x].tests;
            if touches(uses, m1.dirty.order) {
                let k = choose|k: int|
                    0 <= k < m1.dirty.order.len() && uses.contains(#[trigger] m1.dirty.order[k]);
                let test = m1.dirty.order[k];
                lemma_table_order(m1.dirty, test);
                assert(m1.dirty.order.contains(test));
                assert(m1.dirty.contains(test));
                assert(s.tests.dirty.contains(test) || names1.contains(test));
                if !s.tests.dirty.contains(test) {
                    assert(s.jig_spreads_to(test));
                }
                assert(s.test_spreads_to(x));
            }
            if s.test_spreads_to(x) {
                let test = choose|test: UnitNameView|
                    #![trigger uses.contains(test)]
                    uses.contains(test) && (s.tests.dirty.contains(test) || s.jig_spreads_to(test)
                        && s.tests.descriptions.contains(test));
                if !s.tests.dirty.contains(test) {
                    assert(s.tests.holds(test));
                    assert(test.kind == UnitKind::Test);
                    if s.scenarios.descriptions.contains(test) {
                        assert(s.scenarios.holds(test));
                    }
                    if s.interfaces.descriptions.contains(test) {
                        assert(s.interfaces.holds(test));
                    }
                    assert(names1.contains(test));
                }
                assert(m1.dirty.contains(test));
                lemma_table_order(m1.dirty, test);
                let k = choose|k: int| 0 <= k < m1.dirty.order.len() && m1.dirty.order[k] == test;
                assert(uses.contains(m1.dirty.order[k]));
                assert(touches(uses, m1.dirty.order));
            }
        }
    }
    // Kinds.
    assert forall|x: UnitNameView| names1.contains(x) implies x.kind == UnitKind::Test by {
        assert(s.tests.holds(x));
    }
    assert forall|x: UnitNameView| names2.contains(x) implies x.kind == UnitKind::Scenario by {
        assert(s.scenarios.holds(x));
    }
    assert forall|x: UnitNameView| names3.contains(x) implies x.kind == UnitKind::Interface by {
        assert(s.interfaces.holds(x));
    }
    assert forall|x: UnitNameView| names4.contains(x) implies x.kind == UnitKind::Scenario by {
        assert(s.scenarios.holds(x));
    }
    assert forall|x: UnitNameView| #[trigger] p.tests.holds(x) implies x.kind == UnitKind::Test by {
        if !s.tests.holds(x) {
            assert(m1.dirty.contains(x));
            assert(names1.contains(x));
        }
    }
    assert forall|x: UnitNameView| #[trigger] p.scenarios.holds(x) implies x.kind
        == UnitKind::Scenario by {
        if !s.scenarios.holds(x) {
            assert(m4.dirty.contains(x));
            assert(m2.dirty.contains(x) || names4.contains(x));
            assert(s.scenarios.dirty.contains(x) || names2.contains(x) || names4.contains(x));
        }
    }
    assert forall|x: UnitNameView| #[trigger] p.interfaces.holds(x) implies x.kind
        == UnitKind::Interface by {
        if !s.interfaces.holds(x) {
            assert(m3.dirty.contains(x));
            assert(names3.contains(x));
        }
    }
    assert forall|x: UnitNameView| #[trigger] p.jigs.holds(x) implies x.kind == UnitKind::Jig by {
        assert(s.jigs.holds(x));
    }
    // Dirt.
    assert forall|x: UnitNameView| #[trigger] p.dirties(x) <==> (s.dirties(x) || s.spreads_to(x)) by {
        assert(m1.dirty.contains(x) <==> (s.tests.dirty.contains(x) || names1.contains(x)));
        assert(m2.dirty.contains(x) <==> (s.scenarios.dirty.contains(x) || names2.contains(x)));
        assert(m3.dirty.contains(x) <==> (s.interfaces.dirty.contains(x) || names3.contains(x)));
        assert(m4.dirty.contains(x) <==> (m2.dirty.contains(x) || names4.contains(x)));
        if s.tests.descriptions.contains(x) {
            assert(s.tests.holds(x));
        }
        if s.scenarios.descriptions.contains(x) {
            assert(s.scenarios.holds(x));
        }
        if s.interfaces.descriptions.contains(x) {
            assert(s.interfaces.holds(x));
        }
        if s.scenarios.live.contains(x) {
            assert(s.scenarios.holds(x));
        }
        if s.jigs.dirty.contains(x) {
            assert(s.jigs.holds(x));
        }
    }
    // Labels.
    assert forall|x: UnitNameView| #[trigger]
        p.unit_status.get(x) == if s.spreads_to(x) && !is_started(s.unit_status, x) {
            Some(UnitStatusView::UpdateStarted)
        } else {
            s.unit_status.get(x)
        } by {
        let had_label = s.unit_status.get(x);
        let first_label = m1.status.get(x);
        let second_label = m2.status.get(x);
        let third_label = m3.status.get(x);
        let fourth_label = m4.status.get(x);
        assert(first_label == if names1.contains(x) && !is_started(s.unit_status, x) {
            Some(UnitStatusView::UpdateStarted)
        } else {
            had_label
        });
        assert(second_label == if names2.contains(x) && !is_started(m1.status, x) {
            Some(UnitStatusView::UpdateStarted)
        } else {
            first_label
        });
        assert(third_label == if names3.contains(x) && !is_started(m2.status, x) {
            Some(UnitStatusView::UpdateStarted)
        } else {
            second_label
        });
        assert(fourth_label == if names4.contains(x) && !is_started(m3.status, x) {
            Some(UnitStatusView::UpdateStarted)
        } else {
            third_label
        });
        assert(s.spreads_to(x) <==> (names1.contains(x) || names2.contains(x) || names3.contains(x)
            || names4.contains(x)));
    }
}

/// What the unloading of jigs, tests and scenarios does: a dirty name of one
/// of these kinds that is marked for unloading leaves the loaded units and
/// loses its label; nothing else changes.
pub proof fn lemma_unload(s: LibraryView)
    requires
        s.tables_wf(),
        s.sorted(),
    ensures
        ({
            let u = s.unload();
            &&& u.tables_wf()
            &&& u.sorted()
            &&& u.broadcaster == s.broadcaster
            &&& u.progress == s.progress
            &&& u.candidate == s.candidate
            &&& u.interfaces == s.interfaces
            &&& u.jigs.descriptions == s.jigs.descriptions
            &&& u.jigs.dirty == s.jigs.dirty
            &&& u.tests.descriptions == s.tests.descriptions
            &&& u.tests.dirty == s.tests.dirty
            &&& u.scenarios.descriptions == s.scenarios.descriptions
            &&& u.scenarios.dirty == s.scenarios.dirty
            &&& forall|x: UnitNameView| #[trigger]
                u.unit_status.get(x) == if s.unloads(x) {
                    None
                } else {
                    s.unit_status.get(x)
                }
            &&& forall|x: UnitNameView| #[trigger]
                u.jigs.live.get(x) == if s.unloads(x) {
                    None
                } else {
                    s.jigs.live.get(x)
                }
            &&& forall|x: UnitNameView| #[trigger]
                u.tests.live.get(x) == if s.unloads(x) {
                    None
                } else {
                    s.tests.live.get(x)
                }
            &&& forall|x: UnitNameView| #[trigger]
                u.scenarios.live.get(x) == if s.unloads(x) {
                    None
                } else {
                    s.scenarios.live.get(x)
                }
        }),
{
    let first = Loaded { live: s.jigs.live, status: s.unit_status, events: Seq::<UnitEventView>::empty() };
    let jigs = unload_upto(first, s.jigs.dirty.order, s.jigs.dirty.order.len() as int);
    let second = Loaded { live: s.tests.live, status: jigs.status, events: Seq::<UnitEventView>::empty() };
    let tests = unload_upto(second, s.tests.dirty.order, s.tests.dirty.order.len() as int);
    let third = Loaded {
        live: s.scenarios.live,
        status: tests.status,
        events: Seq::<UnitEventView>::empty(),
    };
    let scenarios = unload_upto(third, s.scenarios.dirty.order, s.scenarios.dirty.order.len() as int);
    let u = s.unload();
    lemma_unload_upto(first, s.jigs.dirty.order, s.jigs.dirty.order.len() as int);
    lemma_unload_upto(second, s.tests.dirty.order, s.tests.dirty.order.len() as int);
    lemma_unload_upto(third, s.scenarios.dirty.order, s.scenarios.dirty.order.len() as int);
    let unload_mark = Some(UnitStatusView::UnloadStarted);
    assert forall|x: UnitNameView|
        (#[trigger] jigs.status.get(x) == if s.jigs.dirty.contains(x) && s.unit_status.get(x)
            == unload_mark {
            None
        } else {
            s.unit_status.get(x)
        }) && (#[trigger] jigs.live.get(x) == if s.jigs.dirty.contains(x) && s.unit_status.get(x)
            == unload_mark {
            None
        } else {
            s.jigs.live.get(x)
        }) by {
        lemma_table_order(s.jigs.dirty, x);
    }
    assert forall|x: UnitNameView|
        (#[trigger] tests.status.get(x) == if s.tests.dirty.contains(x) && jigs.status.get(x)
            == unload_mark {
            None
        } else {
            jigs.status.get(x)
        }) && (#[trigger] tests.live.get(x) == if s.tests.dirty.contains(x) && jigs.status.get(x)
            == unload_mark {
            None
        } else {
            s.tests.live.get(x)
        }) by {
        lemma_table_order(s.tests.dirty, x);
    }
    assert forall|x: UnitNameView|
        (#[trigger] scenarios.status.get(x) == if s.scenarios.dirty.contains(x) && tests.status.get(x)
            == unload_mark {
            None
        } else {
            tests.status.get(x)
        }) && (#[trigger] scenarios.live.get(x) == if s.scenarios.dirty.contains(x)
            && tests.status.get(x) == unload_mark {
            None
        } else {
            s.scenarios.live.get(x)
        }) by {
        lemma_table_order(s.scenarios.dirty, x);
    }
    assert forall|x: UnitNameView| #[trigger] u.jigs.holds(x) implies x.kind == UnitKind::Jig by {
        if u.jigs.live.contains(x) {
            assert(jigs.live.get(x) is Some);
            assert(s.jigs.live.contains(x));
        }
        assert(s.jigs.holds(x));
    }
    assert forall|x: UnitNameView| #[trigger] u.tests.holds(x) implies x.kind == UnitKind::Test by {
        if u.tests.live.contains(x) {
            assert(tests.live.get(x) is Some);
            assert(s.tests.live.contains(x));
        }
        assert(s.tests.holds(x));
    }
    assert forall|x: UnitNameView| #[trigger] u.scenarios.holds(x) implies x.kind
        == UnitKind::Scenario by {
        if u.scenarios.live.contains(x) {
            assert(scenarios.live.get(x) is Some);
            assert(s.scenarios.live.contains(x));
        }
        assert(s.scenarios.holds(x));
    }
    assert forall|x: UnitNameView| #[trigger] u.interfaces.holds(x) implies x.kind
        == UnitKind::Interface by {
        assert(s.interfaces.holds(x));
    }
    assert forall|x: UnitNameView|
        #![trigger u.unit_status.get(x)]
        #![trigger u.jigs.live.get(x)]
        #![trigger u.tests.live.get(x)]
        #![trigger u.scenarios.live.get(x)]
        (u.unit_status.get(x) == if s.unloads(x) {
            None
        } else {
            s.unit_status.get(x)
        }) && (u.jigs.live.get(x) == if s.unloads(x) {
            None
        } else {
            s.jigs.live.get(x)
        }) && (u.tests.live.get(x) == if s.unloads(x) {
            None
        } else {
            s.tests.live.get(x)
        }) && (u.scenarios.live.get(x) == if s.unloads(x) {
            None
        } else {
            s.scenarios.live.get(x)
        }) by {
        if s.jigs.dirty.contains(x) {
            assert(s.jigs.holds(x));
        }
        if s.tests.dirty.contains(x) {
            assert(s.tests.holds(x));
        }
        if s.scenarios.dirty.contains(x) {
            assert(s.scenarios.holds(x));
        }
        if s.jigs.live.contains(x) {
            assert(s.jigs.holds(x));
        }
        if s.tests.live.contains(x) {
            assert(s.tests.holds(x));
        }
        if s.scenarios.live.contains(x) {
            assert(s.scenarios.holds(x));
        }
        assert(jigs.status.get(x) == if s.jigs.dirty.contains(x) && s.unit_status.get(x)
            == unload_mark {
            None
        } else {
            s.unit_status.get(x)
        });
        assert(tests.status.get(x) == if s.tests.dirty.contains(x) && jigs.status.get(x)
            == unload_mark {
            None
        } else {
            jigs.status.get(x)
        });
        assert(scenarios.status.get(x) == if s.scenarios.dirty.contains(x) && tests.status.get(x)
            == unload_mark {
            None
        } else {
            tests.status.get(x)
        });
        assert(jigs.live.get(x) == if s.jigs.dirty.contains(x) && s.unit_status.get(x)
            == unload_mark {
            None
        } else {
            s.jigs.live.get(x)
        });
        assert(tests.live.get(x) == if s.tests.dirty.contains(x) && jigs.status.get(x)
            == unload_mark {
            None
        } else {
            s.tests.live.get(x)
        });
        assert(scenarios.live.get(x) == if s.scenarios.dirty.contains(x) && tests.status.get(x)
            == unload_mark {
            None
        } else {
            s.scenarios.live.get(x)
        });
    }
}

impl LibraryView {
    /// Whether a rescan, when it unloads, unloads the jig, test or scenario
    /// `name`: it is dirty and marked for unloading.
    pub open spec fn unloads(self, name: UnitNameView) -> bool {
        &&& name.kind != UnitKind::Interface
        &&& self.dirties(name)
        &&& self.unit_status.get(name) == Some(UnitStatusView::UnloadStarted)
    }
}

impl LibraryView {
    /// What holds of the library's tables at every stop. Every name stands
    /// under its own kind, every label is one of loading, updating or
    /// unloading, and only names without a description are marked for
    /// unloading. Between rescans every dirty name has a label and
    /// every label belongs to a dirty name. While a rescan waits for an
    /// answer it knows which dirty interface the answer is about, and every
    /// label belongs to a name that the rescan has yet to deal with.
    pub open spec fn inv(self) -> bool {
        &&& self.tables_wf()
        &&& self.sorted()
        &&& self.labels_started()
        &&& self.unloads_withdrawn()
        &&& match self.progress {
            ProgressView::Idle => self.candidate is None && self.dirty_labelled()
                && self.labels_dirty(),
            ProgressView::Unloading(i) => 0 <= i < self.interfaces.dirty.order.len()
                && self.candidate is None && self.labels_dirty(),
            ProgressView::Reloading(i) => 0 <= i < self.interfaces.dirty.order.len()
                && self.candidate is None && self.jigs.dirty.order.len() == 0
                && self.labels_pending(i),
            ProgressView::Activating(i) => 0 <= i < self.interfaces.dirty.order.len()
                && self.candidate is Some && self.jigs.dirty.order.len() == 0
                && self.labels_pending(i),
        }
    }

    /// The jig under `name` once the dirty jigs are loaded.
    pub open spec fn jig_after(self, name: UnitNameView) -> Option<JigView> {
        if self.jigs.dirty.contains(name) && asks_load(self.unit_status, name)
            && self.jigs.descriptions.contains(name) {
            Some(self.jigs.descriptions.entries[name])
        } else {
            self.jigs.live.get(name)
        }
    }

    /// The test under `name` once the dirty tests are loaded, `loaded` being
    /// the loaded jigs then.
    pub open spec fn test_after(self, name: UnitNameView, loaded: TableView<JigView>) -> Option<
        TestView,
    > {
        if self.tests.dirty.contains(name) && asks_load(self.unit_status, name)
            && self.tests.descriptions.contains(name) && compatible(
            self.tests.descriptions.entries[name].jigs,
            loaded,
        ) {
            Some(self.tests.descriptions.entries[name])
        } else {
            self.tests.live.get(name)
        }
    }

    /// The scenario under `name` once the dirty scenarios are loaded.
    pub open spec fn scenario_after(self, name: UnitNameView, loaded: TableView<JigView>) -> Option<
        ScenarioView,
    > {
        if self.scenarios.dirty.contains(name) && asks_load(self.unit_status, name)
            && self.scenarios.descriptions.contains(name) && compatible(
            self.scenarios.descriptions.entries[name].jigs,
            loaded,
        ) {
            Some(self.scenarios.descriptions.entries[name])
        } else {
            self.scenarios.live.get(name)
        }
    }

    /// Whether the rescan unloads the interface `name`.
    pub open spec fn unloads_interface(self, name: UnitNameView) -> bool {
        self.interfaces.dirty.contains(name) && self.unit_status.get(name) == Some(
            UnitStatusView::UnloadStarted,
        )
    }

    /// Whether the rescan tries to load the interface `name`.
    pub open spec fn reloads_interface(self, name: UnitNameView) -> bool {
        self.interfaces.dirty.contains(name) && self.loads_interface(name)
    }

    /// The interface that the rescan loads under `name` if it can be
    /// started, `loaded` being the loaded jigs then.
    pub open spec fn fresh_interface(self, name: UnitNameView, loaded: TableView<JigView>) -> Option<
        InterfaceView,
    > {
        if self.reloads_interface(name) && compatible(
            self.interfaces.descriptions.entries[name].jigs,
            loaded,
        ) {
            Some(
                InterfaceView {
                    running: true,
                    ..selected_interface(self.interfaces.descriptions.entries[name])
                },
            )
        } else {
            None
        }
    }

    /// Whether the library has no label at all.
    pub open spec fn no_labels(self) -> bool {
        forall|name: UnitNameView| !#[trigger] self.unit_status.contains(name)
    }
}

/// Whether `t` is a state of the rescan that came to `p` by spreading dirt
/// and unloading jigs, tests and scenarios, and that is now unloading
/// interfaces and has dealt with the first `done` dirty interfaces: those of
/// them that were marked for unloading are gone, with their labels, and
/// nothing else has changed.
pub open spec fn stage_unload(p: LibraryView, t: LibraryView, done: int) -> bool {
    &&& t.jigs == p.jigs
    &&& t.tests == p.tests
    &&& t.scenarios == p.scenarios
    &&& t.interfaces.descriptions == p.interfaces.descriptions
    &&& t.interfaces.dirty == p.interfaces.dirty
    &&& t.candidate is None
    &&& forall|x: UnitNameView|
        #![trigger t.unit_status.get(x)]
        #![trigger t.interfaces.live.get(x)]
        if p.unloads_interface(x) && p.interfaces.dirty.order.take(done).contains(x) {
            t.unit_status.get(x) is None && t.interfaces.live.get(x) is None
        } else {
            t.unit_status.get(x) == p.unit_status.get(x) && t.interfaces.live.get(x)
                == p.interfaces.live.get(x)
        }
}

/// What the rescan that came to `p` has made of the interface `x` once it
/// has dealt with it: one marked for unloading is gone; one that it tried to
/// load is the one freshly made from its description, or gone; any other is
/// as it was.
pub open spec fn interface_done(p: LibraryView, t: LibraryView, x: UnitNameView) -> bool {
    if p.unloads_interface(x) {
        t.interfaces.live.get(x) is None
    } else if p.reloads_interface(x) {
        t.interfaces.live.get(x) is None || t.interfaces.live.get(x) == p.fresh_interface(
            x,
            t.jigs.live,
        )
    } else {
        t.interfaces.live.get(x) == p.interfaces.live.get(x)
    }
}

/// Whether `t` is a state of the rescan that came to `p`, has loaded the
/// jigs, and has dealt with the first `done` dirty interfaces; `held` says
/// that the next one has been taken out to be stopped or started.
pub open spec fn stage_load(p: LibraryView, t: LibraryView, done: int, held: bool) -> bool {
    &&& t.jigs.descriptions == p.jigs.descriptions
    &&& t.jigs.dirty.order.len() == 0
    &&& forall|x: UnitNameView| #[trigger] t.jigs.live.get(x) == p.jig_after(x)
    &&& t.tests == p.tests
    &&& t.scenarios == p.scenarios
    &&& t.interfaces.descriptions == p.interfaces.descriptions
    &&& t.interfaces.dirty == p.interfaces.dirty
    &&& forall|x: UnitNameView|
        #![trigger t.unit_status.get(x)]
        #![trigger t.interfaces.live.get(x)]
        if x.kind == UnitKind::Jig {
            t.unit_status.get(x) is None && t.interfaces.live.get(x) is None
        } else if p.unloads_interface(x) || p.interfaces.dirty.order.take(done).contains(x) {
            t.unit_status.get(x) is None && interface_done(p, t, x)
        } else {
            &&& t.unit_status.get(x) == p.unit_status.get(x)
            &&& if held && done < p.interfaces.dirty.order.len() && x
                == p.interfaces.dirty.order[done] {
                t.interfaces.live.get(x) is None
            } else {
                t.interfaces.live.get(x) == p.interfaces.live.get(x)
            }
        }
}

/// Whether `t` is the end of the rescan that came to `p` by spreading dirt
/// and unloading jigs, tests and scenarios: the descriptions are as they
/// were; the loaded jigs, tests and scenarios are those of `p`, but for the
/// dirty ones that were to be loaded and could be; every interface is dealt
/// with; nothing is dirty, and no name has a label.
pub open spec fn finished(p: LibraryView, t: LibraryView) -> bool {
    &&& t.progress is Idle
    &&& t.candidate is None
    &&& t.nothing_dirty()
    &&& t.no_labels()
    &&& t.jigs.descriptions == p.jigs.descriptions
    &&& t.tests.descriptions == p.tests.descriptions
    &&& t.scenarios.descriptions == p.scenarios.descriptions
    &&& t.interfaces.descriptions == p.interfaces.descriptions
    &&& forall|x: UnitNameView| #[trigger] t.jigs.live.get(x) == p.jig_after(x)
    &&& forall|x: UnitNameView| #[trigger] t.tests.live.get(x) == p.test_after(x, t.jigs.live)
    &&& forall|x: UnitNameView| #[trigger]
        t.scenarios.live.get(x) == p.scenario_after(x, t.jigs.live)
    &&& forall|x: UnitNameView| #[trigger] interface_done(p, t, x)
}

/// Two tables of jigs that hold the same jigs allow the same units.
pub proof fn lemma_compatible_same(jigs: Seq<UnitNameView>, a: TableView<JigView>, b: TableView<JigView>)
    requires
        forall|x: UnitNameView| #[trigger] a.get(x) == b.get(x),
    ensures
        compatible(jigs, a) == compatible(jigs, b),
{
    if compatible(jigs, a) && jigs.len() > 0 {
        let i = choose|i: int| 0 <= i < jigs.len() && a.contains(#[trigger] jigs[i]);
        assert(a.get(jigs[i]) == b.get(jigs[i]));
        assert(b.contains(jigs[i]));
    }
    if compatible(jigs, b) && jigs.len() > 0 {
        let i = choose|i: int| 0 <= i < jigs.len() && b.contains(#[trigger] jigs[i]);
        assert(a.get(jigs[i]) == b.get(jigs[i]));
        assert(a.contains(jigs[i]));
    }
}

/// A table without names holds nothing.
pub proof fn lemma_empty_table<T>(table: TableView<T>)
    requires
        table.wf(),
        table.order.len() == 0,
    ensures
        table == TableView::<T>::empty(),
        forall|x: UnitNameView| !#[trigger] table.contains(x),
{
    assert forall|x: UnitNameView| !#[trigger] table.contains(x) by {
        assert(!table.order.contains(x));
    }
    assert forall|x: UnitNameView| !#[trigger] table.entries.dom().contains(x) by {
        assert(!table.contains(x));
    }
    assert(table.entries.dom() =~= Set::empty());
    assert(table.entries =~= Map::empty());
    assert(table.order =~= Seq::empty());
}

/// What the loading of the jigs makes of a rescan that has unloaded its
/// interfaces.
pub proof fn lemma_load_jigs_stage(p: LibraryView, m: LibraryView)
    requires
        p.tables_wf(),
        p.sorted(),
        p.labels_dirty(),
        m.tables_wf(),
        m.sorted(),
        stage_unload(p, m, p.interfaces.dirty.order.len() as int),
    ensures
        ({
            let t = m.load_jigs();
            &&& t.tables_wf()
            &&& t.sorted()
            &&& t.candidate is None
            &&& t.progress == m.progress
            &&& stage_load(p, t, 0, false)
            &&& t.labels_pending(0)
            &&& publishes(m.broadcaster, t.broadcaster)
        }),
{
    let names = m.jigs.dirty.order;
    let first = Loaded { live: m.jigs.live, status: m.unit_status, events: Seq::<UnitEventView>::empty() };
    let loaded = load_upto(first, names, m.jig_selector(), names.len() as int);
    let t = m.load_jigs();
    lemma_load_upto(first, names, m.jig_selector(), names.len() as int);
    assert(names.take(names.len() as int) =~= names);
    assert(p.interfaces.dirty.order.take(p.interfaces.dirty.order.len() as int)
        =~= p.interfaces.dirty.order);
    lemma_publishes_step(m.broadcaster, t.broadcaster, loaded.events);
    assert forall|x: UnitNameView| #[trigger] t.jigs.holds(x) implies x.kind == UnitKind::Jig by {
        lemma_table_order(m.jigs.dirty, x);
        if t.jigs.live.contains(x) {
            assert(loaded.live.get(x) is Some);
            if !m.jigs.live.contains(x) {
                assert(names.contains(x));
                assert(m.jigs.dirty.contains(x));
            }
        }
        assert(!t.jigs.dirty.contains(x));
        assert(m.jigs.holds(x));
    }
    assert forall|x: UnitNameView| #[trigger] t.tests.holds(x) implies x.kind == UnitKind::Test by {
        assert(m.tests.holds(x));
    }
    assert forall|x: UnitNameView| #[trigger] t.scenarios.holds(x) implies x.kind
        == UnitKind::Scenario by {
        assert(m.scenarios.holds(x));
    }
    assert forall|x: UnitNameView| #[trigger] t.interfaces.holds(x) implies x.kind
        == UnitKind::Interface by {
        assert(m.interfaces.holds(x));
    }
    assert forall|x: UnitNameView| #[trigger] t.jigs.live.get(x) == p.jig_after(x) by {
        lemma_table_order(m.jigs.dirty, x);
        assert(loaded.live.get(x) == if names.contains(x) && loaded_unit(
            m.unit_status,
            m.jig_selector(),
            x,
        ) is Some {
            loaded_unit(m.unit_status, m.jig_selector(), x)
        } else {
            m.jigs.live.get(x)
        });
        if m.jigs.dirty.contains(x) {
            assert(m.jigs.holds(x));
            if p.interfaces.dirty.contains(x) {
                assert(p.interfaces.holds(x));
            }
            assert(m.unit_status.get(x) == p.unit_status.get(x));
        }
    }
    assert forall|x: UnitNameView|
        #![trigger t.unit_status.get(x)]
        #![trigger t.interfaces.live.get(x)]
        if x.kind == UnitKind::Jig {
            t.unit_status.get(x) is None && t.interfaces.live.get(x) is None
        } else if p.unloads_interface(x) || p.interfaces.dirty.order.take(0).contains(x) {
            t.unit_status.get(x) is None && interface_done(p, t, x)
        } else {
            &&& t.unit_status.get(x) == p.unit_status.get(x)
            &&& t.interfaces.live.get(x) == p.interfaces.live.get(x)
        } by {
        lemma_table_order(m.jigs.dirty, x);
        lemma_table_order(p.interfaces.dirty, x);
        assert(p.interfaces.dirty.order.take(0) =~= Seq::empty());
        assert(loaded.status.get(x) == if names.contains(x) {
            None
        } else {
            m.unit_status.get(x)
        });
        assert(m.unit_status.get(x) == if p.unloads_interface(x) {
            None
        } else {
            p.unit_status.get(x)
        });
        assert(m.interfaces.live.get(x) == if p.unloads_interface(x) {
            None
        } else {
            p.interfaces.live.get(x)
        });
        if m.jigs.dirty.contains(x) {
            assert(m.jigs.holds(x));
        }
        if p.interfaces.dirty.contains(x) {
            assert(p.interfaces.holds(x));
        }
        if m.interfaces.live.contains(x) {
            assert(m.interfaces.holds(x));
        }
        if x.kind == UnitKind::Jig && p.unit_status.contains(x) {
            assert(p.dirties(x));
        }
    }
    assert forall|x: UnitNameView| #[trigger] t.unit_status.contains(x) implies t.awaits_load(
        x,
        0,
    ) by {
        assert(t.unit_status.get(x) is Some);
        assert(p.unit_status.get(x) == t.unit_status.get(x));
        assert(p.unit_status.contains(x));
        assert(p.dirties(x));
        assert(p.interfaces.dirty.order.skip(0) =~= p.interfaces.dirty.order);
        lemma_table_order(p.interfaces.dirty, x);
    }
}

/// Whether a rescan publishes the event between its start and its end: what
/// became of a unit. A rescan gives no label and counts no descriptions.
pub open spec fn rescan_event(event: UnitEventView) -> bool {
    match event {
        UnitEventView::RescanStart => false,
        UnitEventView::RescanFinish => false,
        UnitEventView::Category(_, _) => false,
        UnitEventView::Status(_, status) => !(status is LoadStarted || status is UpdateStarted
            || status is UnloadStarted || status is Unloading),
    }
}

/// Whether all of `events` are events of a rescan.
pub open spec fn rescan_events(events: Seq<UnitEventView>) -> bool {
    forall|k: int| 0 <= k < events.len() ==> rescan_event(#[trigger] events[k])
}

/// Whether the queues `after` are the queues `before` with some events of a
/// rescan published.
pub open spec fn publishes(before: BroadcasterView, after: BroadcasterView) -> bool {
    exists|events: Seq<UnitEventView>| #[trigger]
        deliver(before, events) == after && rescan_events(events)
}

/// Whether the queues `after` are the queues `before` with some events of a
/// rescan published and, if `ended`, the end of the rescan after them; the
/// events of a rescan that has ended include those of `must`.
pub open spec fn told(
    before: BroadcasterView,
    after: BroadcasterView,
    ended: bool,
    must: Set<UnitEventView>,
) -> bool {
    if ended {
        exists|events: Seq<UnitEventView>| #[trigger]
            deliver(before, events.push(UnitEventView::RescanFinish)) == after && rescan_events(
                events,
            ) && includes(events, must)
    } else {
        publishes(before, after)
    }
}

/// Whether `events` holds every event of `must`.
pub open spec fn includes(events: Seq<UnitEventView>, must: Set<UnitEventView>) -> bool {
    forall|e: UnitEventView| #[trigger] must.contains(e) ==> events.contains(e)
}

impl LibraryView {
    /// Whether the rescan that came to this state loads the test `name`,
    /// `loaded` being the loaded jigs then.
    pub open spec fn loads_test(self, name: UnitNameView, loaded: TableView<JigView>) -> bool {
        &&& self.tests.dirty.contains(name)
        &&& asks_load(self.unit_status, name)
        &&& self.tests.descriptions.contains(name)
        &&& compatible(self.tests.descriptions.entries[name].jigs, loaded)
    }
}

/// The events that tell that the rescan that came to `p` and ended in `t`
/// has selected a test.
pub open spec fn selected_tests(p: LibraryView, t: LibraryView) -> Set<UnitEventView> {
    Set::new(
        |e: UnitEventView|
            exists|x: UnitNameView| #[trigger] selected_event(x) == e && p.loads_test(x, t.jigs.live),
    )
}

pub proof fn lemma_publishes_step(
    before: BroadcasterView,
    after: BroadcasterView,
    events: Seq<UnitEventView>,
)
    requires
        after == deliver(before, events),
        forall|k: int|
            0 <= k < events.len() ==> is_load_report(#[trigger] events[k]) || rescan_event(events[k]),
    ensures
        publishes(before, after),
{
    assert(rescan_events(events));
    assert(deliver(before, events) == after);
}

pub proof fn lemma_publishes_nothing(queues: BroadcasterView)
    ensures
        publishes(queues, queues),
{
    lemma_deliver_nothing(queues);
    lemma_publishes_step(queues, queues, Seq::empty());
}

pub proof fn lemma_publishes_more(a: BroadcasterView, b: BroadcasterView, c: BroadcasterView)
    requires
        publishes(a, b),
        publishes(b, c),
    ensures
        publishes(a, c),
{
    let first = choose|events: Seq<UnitEventView>| #[trigger]
        deliver(a, events) == b && rescan_events(events);
    let second = choose|events: Seq<UnitEventView>| #[trigger]
        deliver(b, events) == c && rescan_events(events);
    lemma_deliver_twice(a, first, second);
    assert forall|k: int| 0 <= k < (first + second).len() implies rescan_event(
        #[trigger] (first + second)[k],
    ) by {
        if k < first.len() {
            assert((first + second)[k] == first[k]);
        } else {
            assert((first + second)[k] == second[k - first.len()]);
        }
    }
    lemma_publishes_step(a, c, first + second);
}

pub proof fn lemma_told_more(
    a: BroadcasterView,
    b: BroadcasterView,
    c: BroadcasterView,
    ended: bool,
    must: Set<UnitEventView>,
)
    requires
        publishes(a, b),
        told(b, c, ended, must),
    ensures
        told(a, c, ended, must),
{
    if ended {
        let first = choose|events: Seq<UnitEventView>| #[trigger]
            deliver(a, events) == b && rescan_events(events);
        let second = choose|events: Seq<UnitEventView>| #[trigger]
            deliver(b, events.push(UnitEventView::RescanFinish)) == c && rescan_events(events)
                && includes(events, must);
        lemma_deliver_twice(a, first, second.push(UnitEventView::RescanFinish));
        let both = first + second;
        assert(first + second.push(UnitEventView::RescanFinish) =~= both.push(
            UnitEventView::RescanFinish,
        ));
        assert forall|k: int| 0 <= k < both.len() implies rescan_event(#[trigger] both[k]) by {
            if k < first.len() {
                assert(both[k] == first[k]);
            } else {
                assert(both[k] == second[k - first.len()]);
            }
        }
        assert forall|e: UnitEventView| #[trigger] must.contains(e) implies both.contains(e) by {
            assert(second.contains(e));
            let k = choose|k: int| 0 <= k < second.len() && second[k] == e;
            assert(both[first.len() + k] == e);
        }
        assert(deliver(a, both.push(UnitEventView::RescanFinish)) == c && rescan_events(both)
            && includes(both, must));
    } else {
        lemma_publishes_more(a, b, c);
    }
}

/// Where a rescan that came to `p` stands in `t`.
pub open spec fn stage(p: LibraryView, t: LibraryView) -> bool {
    match t.progress {
        ProgressView::Idle => finished(p, t),
        ProgressView::Unloading(j) => stage_unload(p, t, j + 1) && p.unloads_interface(
            p.interfaces.dirty.order[j],
        ),
        ProgressView::Reloading(j) => stage_load(p, t, j, true) && p.reloads_interface(
            p.interfaces.dirty.order[j],
        ),
        ProgressView::Activating(j) => {
            let name = p.interfaces.dirty.order[j];
            &&& stage_load(p, t, j, true)
            &&& p.reloads_interface(name)
            &&& t.candidate == Some(selected_interface(p.interfaces.descriptions.entries[name]))
            &&& compatible(p.interfaces.descriptions.entries[name].jigs, t.jigs.live)
        },
    }
}

/// How stopping and starting goes for the caller of a rescan, interface by
/// interface.
pub struct Answers {
    /// How stopping the interface of this name goes.
    pub stop: spec_fn(UnitNameView) -> Result<(), Seq<char>>,
    /// How starting the interface of this name goes.
    pub start: spec_fn(UnitNameView) -> Result<(), Seq<char>>,
}

/// The answer that the caller gives to `request`.
pub open spec fn answer(answers: Answers, request: RequestView) -> ReplyView {
    match request {
        RequestView::Deactivate(name) => ReplyView::Deactivated((answers.stop)(name)),
        RequestView::Activate(name) => ReplyView::Activated((answers.start)(name)),
        RequestView::Finished => ReplyView::Activated(Ok(())),
    }
}

/// Whether the rescan that came to `p` gets the interface `x` started: its
/// description is compatible with the jigs `loaded`, and starting it goes
/// well.
pub open spec fn starts(
    p: LibraryView,
    x: UnitNameView,
    loaded: TableView<JigView>,
    answers: Answers,
) -> bool {
    &&& compatible(p.interfaces.descriptions.entries[x].jigs, loaded)
    &&& (answers.start)(p.interfaces.descriptions.entries[x].id) is Ok
}

/// Whether, of the first `done` dirty interfaces, those that the rescan
/// tried to load are loaded in `t` exactly where it got them started.
pub open spec fn started(p: LibraryView, t: LibraryView, answers: Answers, done: int) -> bool {
    forall|x: UnitNameView| #[trigger]
        p.interfaces.dirty.order.take(done).contains(x) && p.reloads_interface(x) ==> (
        t.interfaces.live.get(x) is Some <==> starts(p, x, t.jigs.live, answers))
}

/// Whether the interfaces that the rescan has dealt with in `t` are loaded
/// as the answers say.
pub open spec fn answered(p: LibraryView, t: LibraryView, answers: Answers) -> bool {
    match t.progress {
        ProgressView::Idle => started(p, t, answers, p.interfaces.dirty.order.len() as int),
        ProgressView::Unloading(_) => true,
        ProgressView::Reloading(j) => started(p, t, answers, j),
        ProgressView::Activating(j) => started(p, t, answers, j),
    }
}

/// What holds of the interfaces dealt with still holds where they and the
/// loaded jigs are as they were.
pub proof fn lemma_started_same(
    p: LibraryView,
    m: LibraryView,
    t: LibraryView,
    answers: Answers,
    done: int,
)
    requires
        started(p, m, answers, done),
        t.jigs.live == m.jigs.live,
        forall|x: UnitNameView| #[trigger]
            p.interfaces.dirty.order.take(done).contains(x) ==> t.interfaces.live.get(x)
                == m.interfaces.live.get(x),
    ensures
        started(p, t, answers, done),
{
    assert forall|x: UnitNameView| #[trigger]
        p.interfaces.dirty.order.take(done).contains(x) && p.reloads_interface(x) implies (
    t.interfaces.live.get(x) is Some <==> starts(p, x, t.jigs.live, answers)) by {
        assert(t.interfaces.live.get(x) == m.interfaces.live.get(x));
    }
}

/// What holds of the interfaces dealt with holds of one more, once the next
/// is dealt with as the answers say.
pub proof fn lemma_started_more(
    p: LibraryView,
    m: LibraryView,
    t: LibraryView,
    answers: Answers,
    i: int,
)
    requires
        p.interfaces.dirty.order.no_duplicates(),
        0 <= i < p.interfaces.dirty.order.len(),
        started(p, m, answers, i),
        t.jigs.live == m.jigs.live,
        forall|x: UnitNameView|
            x != p.interfaces.dirty.order[i] ==> #[trigger] t.interfaces.live.get(x)
                == m.interfaces.live.get(x),
        p.reloads_interface(p.interfaces.dirty.order[i]) ==> (t.interfaces.live.get(
            p.interfaces.dirty.order[i],
        ) is Some <==> starts(p, p.interfaces.dirty.order[i], t.jigs.live, answers)),
    ensures
        started(p, t, answers, i + 1),
{
    lemma_skip_contains(p.interfaces.dirty.order, i);
    assert forall|x: UnitNameView| #[trigger]
        p.interfaces.dirty.order.take(i + 1).contains(x) && p.reloads_interface(x) implies (
    t.interfaces.live.get(x) is Some <==> starts(p, x, t.jigs.live, answers)) by {
        if x != p.interfaces.dirty.order[i] {
            assert(p.interfaces.dirty.order.take(i).contains(x));
            assert(t.interfaces.live.get(x) == m.interfaces.live.get(x));
        }
    }
}

/// Whether `result` is a sound next stop of the rescan that came to `p` and
/// went on from the state `m`.
pub open spec fn goes_on(p: LibraryView, m: LibraryView, result: (LibraryView, RequestView)) -> bool {
    let (t, request) = result;
    &&& t.inv()
    &&& stage(p, t)
    &&& request == t.pending()
    &&& told(m.broadcaster, t.broadcaster, t.progress is Idle, selected_tests(p, t))
}

/// From place `i + 1` on a list without repetitions no longer holds the
/// item in place `i`, and holds all others that it held from place `i` on.
pub proof fn lemma_skip_contains(order: Seq<UnitNameView>, i: int)
    requires
        order.no_duplicates(),
        0 <= i < order.len(),
    ensures
        forall|x: UnitNameView| #[trigger]
            order.skip(i + 1).contains(x) <==> (order.skip(i).contains(x) && x != order[i]),
        forall|x: UnitNameView| #[trigger]
            order.take(i + 1).contains(x) <==> (order.take(i).contains(x) || x == order[i]),
        forall|x: UnitNameView|
            order.contains(x) ==> (#[trigger] order.take(i).contains(x) || order.skip(i).contains(x)),
        !order.take(i).contains(order[i]),
{
    let longer = order.skip(i);
    let shorter = order.skip(i + 1);
    assert forall|x: UnitNameView| #[trigger]
        shorter.contains(x) <==> (longer.contains(x) && x != order[i]) by {
        if shorter.contains(x) {
            let k = choose|k: int| 0 <= k < shorter.len() && shorter[k] == x;
            assert(longer[k + 1] == x);
            assert(order[i + 1 + k] == x);
        }
        if longer.contains(x) && x != order[i] {
            let k = choose|k: int| 0 <= k < longer.len() && longer[k] == x;
            assert(order[i + k] == x);
            assert(k > 0);
            assert(shorter[k - 1] == x);
        }
    }
    lemma_take_contains(order, i + 1);
    let head = order.take(i);
    assert forall|x: UnitNameView| order.contains(x) implies (#[trigger] head.contains(x)
        || longer.contains(x)) by {
        let k = choose|k: int| 0 <= k < order.len() && order[k] == x;
        if k < i {
            assert(head[k] == x);
        } else {
            assert(longer[k - i] == x);
        }
    }
    if head.contains(order[i]) {
        let k = choose|k: int| 0 <= k < head.len() && head[k] == order[i];
        assert(order[k] == order[i]);
    }
}

/// A library whose labels are labels of `p`, and which describes what `p`
/// describes, has only labels that the library keeps and marks only names
/// without a description for unloading, if that holds of `p`.
pub proof fn lemma_labels_from(p: LibraryView, t: LibraryView)
    requires
        p.labels_started(),
        p.unloads_withdrawn(),
        forall|x: UnitNameView| #[trigger]
            t.unit_status.get(x) is None || t.unit_status.get(x) == p.unit_status.get(x),
        t.jigs.descriptions == p.jigs.descriptions,
        t.tests.descriptions == p.tests.descriptions,
        t.scenarios.descriptions == p.scenarios.descriptions,
        t.interfaces.descriptions == p.interfaces.descriptions,
    ensures
        t.labels_started(),
        t.unloads_withdrawn(),
{
    assert forall|x: UnitNameView| #[trigger] t.describes(x) implies t.unit_status.get(x) != Some(
        UnitStatusView::UnloadStarted,
    ) by {
        assert(p.describes(x));
        assert(t.unit_status.get(x) is None || t.unit_status.get(x) == p.unit_status.get(x));
    }
    assert forall|x: UnitNameView| #[trigger] t.unit_status.contains(
        x,
    ) implies t.unit_status.entries[x].is_started() by {
        assert(t.unit_status.get(x) is Some);
        assert(p.unit_status.get(x) == t.unit_status.get(x));
        assert(p.unit_status.contains(x));
    }
}

/// What the end of a rescan makes of a rescan that has dealt with all its
/// dirty interfaces.
pub proof fn lemma_finish_stage(p: LibraryView, m: LibraryView, answers: Answers)
    requires
        p.tables_wf(),
        p.sorted(),
        p.unloads_withdrawn(),
        m.tables_wf(),
        m.sorted(),
        stage_load(p, m, p.interfaces.dirty.order.len() as int, false),
        m.labels_pending(p.interfaces.dirty.order.len() as int),
    ensures
        goes_on(p, m, (m.finish(), RequestView::Finished)),
        started(p, m, answers, p.interfaces.dirty.order.len() as int) ==> answered(
            p,
            m.finish(),
            answers,
        ),
{
    let all = p.interfaces.dirty.order.len() as int;
    let m1 = LibraryView {
        interfaces: KindView { dirty: TableView::empty(), ..m.interfaces },
        progress: ProgressView::Idle,
        candidate: None,
        ..m
    };
    let test_names = m1.tests.dirty.order;
    let first = Loaded { live: m1.tests.live, status: m1.unit_status, events: Seq::<UnitEventView>::empty() };
    let tests = load_upto(first, test_names, m1.test_selector(), test_names.len() as int);
    let m2 = m1.load_tests();
    let scenario_names = m2.scenarios.dirty.order;
    let second = Loaded {
        live: m2.scenarios.live,
        status: m2.unit_status,
        events: Seq::<UnitEventView>::empty(),
    };
    let scenarios = load_upto(second, scenario_names, m2.scenario_selector(), scenario_names.len() as int);
    let m3 = m2.load_scenarios();
    let t = m.finish();
    assert(t == m3.emit(seq![UnitEventView::RescanFinish]));
    lemma_load_upto(first, test_names, m1.test_selector(), test_names.len() as int);
    lemma_load_upto(second, scenario_names, m2.scenario_selector(), scenario_names.len() as int);
    assert(test_names.take(test_names.len() as int) =~= test_names);
    assert(scenario_names.take(scenario_names.len() as int) =~= scenario_names);
    assert(p.interfaces.dirty.order.take(all) =~= p.interfaces.dirty.order);
    assert(p.interfaces.dirty.order.skip(all) =~= Seq::empty());

    lemma_publishes_step(m1.broadcaster, m2.broadcaster, tests.events);
    lemma_publishes_step(m2.broadcaster, m3.broadcaster, scenarios.events);
    lemma_publishes_more(m1.broadcaster, m2.broadcaster, m3.broadcaster);
    let both = tests.events + scenarios.events;
    lemma_deliver_twice(m1.broadcaster, tests.events, scenarios.events);
    lemma_deliver_twice(m1.broadcaster, both, seq![UnitEventView::RescanFinish]);
    assert(both + seq![UnitEventView::RescanFinish] =~= both.push(UnitEventView::RescanFinish));
    assert forall|k: int| 0 <= k < both.len() implies rescan_event(#[trigger] both[k]) by {
        if k < tests.events.len() {
            assert(both[k] == tests.events[k]);
        } else {
            assert(both[k] == scenarios.events[k - tests.events.len()]);
        }
    }
    assert forall|e: UnitEventView| #[trigger] selected_tests(p, t).contains(
        e,
    ) implies both.contains(e) by {
        let x = choose|x: UnitNameView| #[trigger]
            selected_event(x) == e && p.loads_test(x, t.jigs.live);
        lemma_table_order(m.tests.dirty, x);
        assert(m.tests.holds(x));
        if p.interfaces.dirty.contains(x) {
            assert(p.interfaces.holds(x));
        }
        lemma_table_order(p.interfaces.dirty, x);
        assert(m.unit_status.get(x) == p.unit_status.get(x));
        assert(loaded_unit(m1.unit_status, m1.test_selector(), x) is Some);
        assert(tests.events.skip(0) =~= tests.events);
        assert(tests.events.contains(selected_event(x)));
        let k = choose|k: int| 0 <= k < tests.events.len() && tests.events[k] == selected_event(x);
        assert(both[k] == e);
    }
    assert(deliver(m.broadcaster, both.push(UnitEventView::RescanFinish)) == t.broadcaster
        && rescan_events(both) && includes(both, selected_tests(p, t)));

    assert forall|x: UnitNameView| #[trigger] t.tests.live.get(x) == p.test_after(x, t.jigs.live) by {
        lemma_table_order(m.tests.dirty, x);
        assert(tests.live.get(x) == if test_names.contains(x) && loaded_unit(
            m1.unit_status,
            m1.test_selector(),
            x,
        ) is Some {
            loaded_unit(m1.unit_status, m1.test_selector(), x)
        } else {
            m1.tests.live.get(x)
        });
        if m.tests.dirty.contains(x) {
            assert(m.tests.holds(x));
            if p.interfaces.dirty.contains(x) {
                assert(p.interfaces.holds(x));
            }
            lemma_table_order(p.interfaces.dirty, x);
            assert(m.unit_status.get(x) == p.unit_status.get(x));
        }
    }
    assert forall|x: UnitNameView| #[trigger]
        t.scenarios.live.get(x) == p.scenario_after(x, t.jigs.live) by {
        lemma_table_order(m.scenarios.dirty, x);
        lemma_table_order(m.tests.dirty, x);
        assert(scenarios.live.get(x) == if scenario_names.contains(x) && loaded_unit(
            m2.unit_status,
            m2.scenario_selector(),
            x,
        ) is Some {
            loaded_unit(m2.unit_status, m2.scenario_selector(), x)
        } else {
            m2.scenarios.live.get(x)
        });
        if m.scenarios.dirty.contains(x) {
            assert(m.scenarios.holds(x));
            if p.interfaces.dirty.contains(x) {
                assert(p.interfaces.holds(x));
            }
            if m.tests.dirty.contains(x) {
                assert(m.tests.holds(x));
            }
            lemma_table_order(p.interfaces.dirty, x);
            assert(m.unit_status.get(x) == p.unit_status.get(x));
            assert(tests.status.get(x) == if test_names.contains(x) {
                None
            } else {
                m1.unit_status.get(x)
            });
        }
    }
    assert forall|x: UnitNameView| !#[trigger] t.unit_status.contains(x) by {
        lemma_table_order(m.scenarios.dirty, x);
        lemma_table_order(m.tests.dirty, x);
        assert(scenarios.status.get(x) == if scenario_names.contains(x) {
            None
        } else {
            m2.unit_status.get(x)
        });
        assert(tests.status.get(x) == if test_names.contains(x) {
            None
        } else {
            m1.unit_status.get(x)
        });
        if t.unit_status.contains(x) {
            assert(m.unit_status.contains(x));
            assert(m.awaits_load(x, all));
        }
    }
    assert forall|x: UnitNameView| #[trigger] interface_done(p, t, x) by {
        lemma_table_order(p.interfaces.dirty, x);
        assert(t.interfaces.live.get(x) == m.interfaces.live.get(x));
        if x.kind == UnitKind::Jig {
            if p.interfaces.live.contains(x) {
                assert(p.interfaces.holds(x));
            }
            if p.interfaces.dirty.contains(x) {
                assert(p.interfaces.holds(x));
            }
        }
    }
    lemma_empty_table(t.jigs.dirty);
    assert forall|x: UnitNameView| #[trigger] t.tests.holds(x) implies x.kind == UnitKind::Test by {
        lemma_table_order(m.tests.dirty, x);
        if t.tests.live.contains(x) {
            assert(tests.live.get(x) is Some);
            if !m.tests.live.contains(x) {
                assert(m.tests.dirty.contains(x));
            }
        }
        assert(m.tests.holds(x));
    }
    assert forall|x: UnitNameView| #[trigger] t.scenarios.holds(x) implies x.kind
        == UnitKind::Scenario by {
        lemma_table_order(m.scenarios.dirty, x);
        if t.scenarios.live.contains(x) {
            assert(scenarios.live.get(x) is Some);
            if !m.scenarios.live.contains(x) {
                assert(m.scenarios.dirty.contains(x));
            }
        }
        assert(m.scenarios.holds(x));
    }
    assert forall|x: UnitNameView| #[trigger] t.jigs.holds(x) implies x.kind == UnitKind::Jig by {
        assert(m.jigs.holds(x));
    }
    assert forall|x: UnitNameView| #[trigger] t.interfaces.holds(x) implies x.kind
        == UnitKind::Interface by {
        assert(m.interfaces.holds(x));
    }
    t.lemma_clean_labelled();
    assert forall|x: UnitNameView| #[trigger] t.unit_status.contains(x) implies t.dirties(x) by {}
    assert(t.labels_started());
    assert forall|x: UnitNameView| #[trigger] t.describes(x) implies t.unit_status.get(x) != Some(
        UnitStatusView::UnloadStarted,
    ) by {
        assert(!t.unit_status.contains(x));
    }
    if started(p, m, answers, all) {
        assert(t.interfaces.live == m.interfaces.live);
        lemma_started_same(p, m, t, answers, all);
    }
}

/// What selecting the dirty interface in place `i` leads to.
pub proof fn lemma_select_interface(p: LibraryView, m: LibraryView, i: int, answers: Answers)
    requires
        p.tables_wf(),
        p.sorted(),
        p.labels_started(),
        p.unloads_withdrawn(),
        m.tables_wf(),
        m.sorted(),
        m.candidate is None,
        0 <= i < m.interfaces.dirty.order.len(),
        stage_load(p, m, i, true),
        m.labels_pending(i),
        p.reloads_interface(p.interfaces.dirty.order[i]),
    ensures
        goes_on(p, m, m.select_interface(i)),
        started(p, m, answers, i) ==> answered(p, m.select_interface(i).0, answers),
    decreases m.interfaces.dirty.order.len() - i, 0int,
{
    let name = m.interfaces.dirty.order[i];
    let d = m.interfaces.descriptions.entries[name];
    lemma_skip_contains(m.interfaces.dirty.order, i);
    lemma_table_order(m.interfaces.dirty, name);
    assert(m.interfaces.dirty.order.contains(name));
    assert(m.interfaces.holds(name));
    if compatible(d.jigs, m.jigs.live) {
        let t = m.select_interface(i).0;
        lemma_publishes_step(m.broadcaster, t.broadcaster, seq![selected_event(name)]);
        lemma_labels_from(p, t);
        if started(p, m, answers, i) {
            lemma_started_same(p, m, t, answers, i);
        }
        assert forall|x: UnitNameView| #[trigger] t.jigs.holds(x) implies x.kind == UnitKind::Jig by {
            assert(m.jigs.holds(x));
        }
        assert forall|x: UnitNameView| #[trigger] t.tests.holds(x) implies x.kind
            == UnitKind::Test by {
            assert(m.tests.holds(x));
        }
        assert forall|x: UnitNameView| #[trigger] t.scenarios.holds(x) implies x.kind
            == UnitKind::Scenario by {
            assert(m.scenarios.holds(x));
        }
        assert forall|x: UnitNameView| #[trigger] t.interfaces.holds(x) implies x.kind
            == UnitKind::Interface by {
            assert(m.interfaces.holds(x));
        }
        assert forall|x: UnitNameView| #[trigger] t.unit_status.contains(x) implies t.awaits_load(
            x,
            i,
        ) by {
            assert(m.unit_status.contains(x));
            assert(m.awaits_load(x, i));
        }
    } else {
        let after = m.emit(
            seq![incompatible_event(name, UnitIncompatibleReason::IncompatibleJig)],
        ).settle(name);
        lemma_publishes_step(
            m.broadcaster,
            after.broadcaster,
            seq![incompatible_event(name, UnitIncompatibleReason::IncompatibleJig)],
        );
        lemma_settled(p, m, after, i, true);
        if started(p, m, answers, i) {
            assert(after.interfaces.live.get(name) is None);
            lemma_started_more(p, m, after, answers, i);
        }
        lemma_load_interfaces_from(p, after, i + 1, answers);
        lemma_told_more(
            m.broadcaster,
            after.broadcaster,
            after.load_interfaces_from(i + 1).0.broadcaster,
            after.load_interfaces_from(i + 1).0.progress is Idle,
            selected_tests(p, after.load_interfaces_from(i + 1).0),
        );
    }
}

/// A rescan that drops the label of the dirty interface in place `i` has
/// dealt with it, if it did not take the interface out (`held`) without
/// reason.
pub proof fn lemma_settled(p: LibraryView, m: LibraryView, after: LibraryView, i: int, held: bool)
    requires
        p.tables_wf(),
        p.sorted(),
        m.tables_wf(),
        m.sorted(),
        m.candidate is None,
        0 <= i < m.interfaces.dirty.order.len(),
        stage_load(p, m, i, held),
        held ==> p.reloads_interface(p.interfaces.dirty.order[i]),
        !held ==> !m.loads_interface(p.interfaces.dirty.order[i]),
        m.labels_pending(i),
        after == (LibraryView { broadcaster: after.broadcaster, ..m.settle(m.interfaces.dirty.order[i]) }),
    ensures
        after.tables_wf(),
        after.sorted(),
        after.candidate is None,
        stage_load(p, after, i + 1, false),
        after.labels_pending(i + 1),
{
    let name = m.interfaces.dirty.order[i];
    lemma_skip_contains(m.interfaces.dirty.order, i);
    m.unit_status.lemma_remove_wf(name);
    assert forall|x: UnitNameView| #[trigger] after.jigs.holds(x) implies x.kind == UnitKind::Jig by {
        assert(m.jigs.holds(x));
    }
    assert forall|x: UnitNameView| #[trigger] after.tests.holds(x) implies x.kind
        == UnitKind::Test by {
        assert(m.tests.holds(x));
    }
    assert forall|x: UnitNameView| #[trigger] after.scenarios.holds(x) implies x.kind
        == UnitKind::Scenario by {
        assert(m.scenarios.holds(x));
    }
    assert forall|x: UnitNameView| #[trigger] after.interfaces.holds(x) implies x.kind
        == UnitKind::Interface by {
        assert(m.interfaces.holds(x));
    }
    lemma_table_order(m.interfaces.dirty, name);
    assert(m.interfaces.dirty.order.contains(name));
    assert(m.interfaces.holds(name));
    assert forall|x: UnitNameView|
        #![trigger after.unit_status.get(x)]
        #![trigger after.interfaces.live.get(x)]
        if x.kind == UnitKind::Jig {
            after.unit_status.get(x) is None && after.interfaces.live.get(x) is None
        } else if p.unloads_interface(x) || p.interfaces.dirty.order.take(i + 1).contains(x) {
            after.unit_status.get(x) is None && interface_done(p, after, x)
        } else {
            &&& after.unit_status.get(x) == p.unit_status.get(x)
            &&& after.interfaces.live.get(x) == p.interfaces.live.get(x)
        } by {
        assert(after.unit_status.get(x) == if x == name {
            None
        } else {
            m.unit_status.get(x)
        });
        assert(after.interfaces.live.get(x) == m.interfaces.live.get(x));
        assert(after.jigs.live == m.jigs.live);
        assert(x.kind == UnitKind::Jig ==> x != name);
        assert(p.interfaces.dirty.order.take(i + 1).contains(x) <==> (p.interfaces.dirty.order.take(
            i,
        ).contains(x) || x == name));
        if x == name {
            assert(!p.interfaces.dirty.order.take(i).contains(x));
            if !p.unloads_interface(x) {
                assert(m.unit_status.get(x) == p.unit_status.get(x));
                if held {
                    assert(m.interfaces.live.get(x) is None);
                } else {
                    assert(m.interfaces.live.get(x) == p.interfaces.live.get(x));
                    assert(!p.loads_interface(x));
                }
            } else {
                assert(interface_done(p, m, x));
            }
            assert(interface_done(p, after, x));
        } else if x.kind != UnitKind::Jig {
            if p.unloads_interface(x) || p.interfaces.dirty.order.take(i).contains(x) {
                assert(interface_done(p, m, x));
                assert(interface_done(p, after, x));
            }
        }
    }
    assert forall|x: UnitNameView| #[trigger] after.unit_status.contains(x) implies after.awaits_load(
        x,
        i + 1,
    ) by {
        assert(m.unit_status.contains(x));
        assert(m.awaits_load(x, i));
    }
}

/// What the loading of interfaces from place `i` on leads to.
pub proof fn lemma_load_interfaces_from(p: LibraryView, m: LibraryView, i: int, answers: Answers)
    requires
        p.tables_wf(),
        p.sorted(),
        p.labels_started(),
        p.unloads_withdrawn(),
        m.tables_wf(),
        m.sorted(),
        m.candidate is None,
        0 <= i <= m.interfaces.dirty.order.len(),
        stage_load(p, m, i, false),
        m.labels_pending(i),
    ensures
        goes_on(p, m, m.load_interfaces_from(i)),
        started(p, m, answers, i) ==> answered(p, m.load_interfaces_from(i).0, answers),
    decreases m.interfaces.dirty.order.len() - i, 1int,
{
    if i >= m.interfaces.dirty.order.len() {
        lemma_finish_stage(p, m, answers);
    } else {
        let name = m.interfaces.dirty.order[i];
        lemma_skip_contains(m.interfaces.dirty.order, i);
        lemma_table_order(m.interfaces.dirty, name);
        assert(m.interfaces.dirty.order.contains(name));
        assert(m.interfaces.holds(name));
        assert(m.unit_status.get(name) == if p.unloads_interface(name) {
            None
        } else {
            p.unit_status.get(name)
        });
        assert(m.interfaces.live.get(name) == if p.unloads_interface(name) {
            None
        } else {
            p.interfaces.live.get(name)
        });
        if m.loads_interface(name) {
            assert(p.reloads_interface(name));
            if m.interfaces.live.contains(name) {
                let t = m.load_interfaces_from(i).0;
                lemma_publishes_nothing(m.broadcaster);
                m.interfaces.live.lemma_remove_wf(name);
                assert forall|x: UnitNameView| #[trigger]
                    t.unit_status.get(x) is None || t.unit_status.get(x) == p.unit_status.get(
                        x,
                    ) by {
                    assert(t.unit_status.get(x) == m.unit_status.get(x));
                }
                lemma_labels_from(p, t);
                assert forall|x: UnitNameView| #[trigger] t.jigs.holds(x) implies x.kind
                    == UnitKind::Jig by {
                    assert(m.jigs.holds(x));
                }
                assert forall|x: UnitNameView| #[trigger] t.tests.holds(x) implies x.kind
                    == UnitKind::Test by {
                    assert(m.tests.holds(x));
                }
                assert forall|x: UnitNameView| #[trigger] t.scenarios.holds(x) implies x.kind
                    == UnitKind::Scenario by {
                    assert(m.scenarios.holds(x));
                }
                assert forall|x: UnitNameView| #[trigger] t.interfaces.holds(x) implies x.kind
                    == UnitKind::Interface by {
                    assert(m.interfaces.holds(x));
                }
                assert forall|x: UnitNameView| #[trigger] t.unit_status.contains(x) implies t.awaits_load(
                    x,
                    i,
                ) by {
                    assert(m.unit_status.contains(x));
                    assert(m.awaits_load(x, i));
                }
                assert forall|x: UnitNameView|
                    #![trigger t.unit_status.get(x)]
                    #![trigger t.interfaces.live.get(x)]
                    if x.kind == UnitKind::Jig {
                        t.unit_status.get(x) is None && t.interfaces.live.get(x) is None
                    } else if p.unloads_interface(x) || p.interfaces.dirty.order.take(i).contains(
                        x,
                    ) {
                        t.unit_status.get(x) is None && interface_done(p, t, x)
                    } else {
                        &&& t.unit_status.get(x) == p.unit_status.get(x)
                        &&& if x == p.interfaces.dirty.order[i] {
                            t.interfaces.live.get(x) is None
                        } else {
                            t.interfaces.live.get(x) == p.interfaces.live.get(x)
                        }
                    } by {
                    assert(t.interfaces.live.get(x) == if x == name {
                        None
                    } else {
                        m.interfaces.live.get(x)
                    });
                    assert(t.unit_status.get(x) == m.unit_status.get(x));
                }
                if started(p, m, answers, i) {
                    assert forall|x: UnitNameView| #[trigger]
                        p.interfaces.dirty.order.take(i).contains(x) implies t.interfaces.live.get(x)
                        == m.interfaces.live.get(x) by {
                        assert(t.interfaces.live.get(x) == if x == name {
                            None
                        } else {
                            m.interfaces.live.get(x)
                        });
                    }
                    lemma_started_same(p, m, t, answers, i);
                }
            } else {
                assert(stage_load(p, m, i, true));
                lemma_select_interface(p, m, i, answers);
            }
        } else {
            let after = m.settle(name);
            lemma_publishes_nothing(m.broadcaster);
            lemma_settled(p, m, after, i, false);
            if started(p, m, answers, i) {
                assert(!p.reloads_interface(name));
                lemma_started_more(p, m, after, answers, i);
            }
            lemma_load_interfaces_from(p, after, i + 1, answers);
        }
    }
}

/// The kinds of `after` hold no name that those of `before` do not hold.
pub open spec fn holds_no_more(before: LibraryView, after: LibraryView) -> bool {
    &&& forall|x: UnitNameView| #[trigger] after.jigs.holds(x) ==> before.jigs.holds(x)
    &&& forall|x: UnitNameView| #[trigger] after.tests.holds(x) ==> before.tests.holds(x)
    &&& forall|x: UnitNameView| #[trigger] after.scenarios.holds(x) ==> before.scenarios.holds(x)
    &&& forall|x: UnitNameView| #[trigger] after.interfaces.holds(x) ==> before.interfaces.holds(x)
}

/// A library whose kinds hold no more names than those of a sorted one is
/// sorted.
pub proof fn lemma_sorted_still(before: LibraryView, after: LibraryView)
    requires
        before.sorted(),
        holds_no_more(before, after),
    ensures
        after.sorted(),
{
    assert forall|x: UnitNameView| #[trigger] after.jigs.holds(x) implies x.kind == UnitKind::Jig by {
        assert(before.jigs.holds(x));
    }
    assert forall|x: UnitNameView| #[trigger] after.tests.holds(x) implies x.kind
        == UnitKind::Test by {
        assert(before.tests.holds(x));
    }
    assert forall|x: UnitNameView| #[trigger] after.scenarios.holds(x) implies x.kind
        == UnitKind::Scenario by {
        assert(before.scenarios.holds(x));
    }
    assert forall|x: UnitNameView| #[trigger] after.interfaces.holds(x) implies x.kind
        == UnitKind::Interface by {
        assert(before.interfaces.holds(x));
    }
}

/// While a rescan unloads interfaces, every label still belongs to a dirty
/// name.
pub proof fn lemma_unloading_labels(p: LibraryView, m: LibraryView, done: int)
    requires
        p.labels_dirty(),
        stage_unload(p, m, done),
    ensures
        m.labels_dirty(),
{
    assert forall|x: UnitNameView| #[trigger] m.unit_status.contains(x) implies m.dirties(x) by {
        assert(m.unit_status.get(x) is Some);
        assert(p.unit_status.get(x) == m.unit_status.get(x));
        assert(p.unit_status.contains(x));
        assert(p.dirties(x));
    }
}

/// What the unloading of interfaces from place `i` on leads to.
pub proof fn lemma_unload_interfaces_from(p: LibraryView, m: LibraryView, i: int, answers: Answers)
    requires
        p.tables_wf(),
        p.sorted(),
        p.labels_dirty(),
        p.labels_started(),
        p.unloads_withdrawn(),
        m.tables_wf(),
        m.sorted(),
        0 <= i <= m.interfaces.dirty.order.len(),
        stage_unload(p, m, i),
    ensures
        goes_on(p, m, m.unload_interfaces_from(i)),
        answered(p, m.unload_interfaces_from(i).0, answers),
    decreases m.interfaces.dirty.order.len() - i,
{
    if i >= m.interfaces.dirty.order.len() {
        lemma_load_jigs_stage(p, m);
        let loaded = m.load_jigs();
        assert(p.interfaces.dirty.order.take(0) =~= Seq::empty());
        assert(started(p, loaded, answers, 0));
        lemma_load_interfaces_from(p, loaded, 0, answers);
        lemma_told_more(
            m.broadcaster,
            loaded.broadcaster,
            loaded.load_interfaces_from(0).0.broadcaster,
            loaded.load_interfaces_from(0).0.progress is Idle,
            selected_tests(p, loaded.load_interfaces_from(0).0),
        );
    } else {
        let name = m.interfaces.dirty.order[i];
        lemma_skip_contains(m.interfaces.dirty.order, i);
        lemma_table_order(m.interfaces.dirty, name);
        assert(m.interfaces.dirty.order.contains(name));
        assert(m.interfaces.holds(name));
        assert(m.unit_status.get(name) == p.unit_status.get(name));
        assert(m.interfaces.live.get(name) == p.interfaces.live.get(name));
        lemma_publishes_nothing(m.broadcaster);
        if m.unit_status.get(name) == Some(UnitStatusView::UnloadStarted) {
            assert(p.unloads_interface(name));
            let after = m.drop_interface(name).settle(name);
            m.interfaces.live.lemma_remove_wf(name);
            m.unit_status.lemma_remove_wf(name);
            assert(holds_no_more(m, after));
            lemma_sorted_still(m, after);
            assert forall|x: UnitNameView|
                #![trigger after.unit_status.get(x)]
                #![trigger after.interfaces.live.get(x)]
                if p.unloads_interface(x) && p.interfaces.dirty.order.take(i + 1).contains(x) {
                    after.unit_status.get(x) is None && after.interfaces.live.get(x) is None
                } else {
                    after.unit_status.get(x) == p.unit_status.get(x) && after.interfaces.live.get(x)
                        == p.interfaces.live.get(x)
                } by {
                assert(after.unit_status.get(x) == if x == name {
                    None
                } else {
                    m.unit_status.get(x)
                });
                assert(after.interfaces.live.get(x) == if x == name {
                    None
                } else {
                    m.interfaces.live.get(x)
                });
            }
            if m.interfaces.live.contains(name) {
                let t = m.unload_interfaces_from(i).0;
                assert(t == (LibraryView { progress: ProgressView::Unloading(i), ..after }));
                assert(stage_unload(p, t, i + 1));
                lemma_unloading_labels(p, t, i + 1);
                lemma_labels_from(p, t);
                assert(holds_no_more(m, t));
                lemma_sorted_still(m, t);
            } else {
                assert(after.interfaces.live =~= m.interfaces.live);
                assert(after == m.settle(name));
                lemma_unload_interfaces_from(p, after, i + 1, answers);
            }
        } else {
            assert(!p.unloads_interface(name));
            assert(stage_unload(p, m, i + 1));
            lemma_unload_interfaces_from(p, m, i + 1, answers);
        }
    }
}

/// The state that a rescan of `s` comes to before it deals with interfaces:
/// the start is announced, dirt has spread, and the jigs, tests and
/// scenarios that were marked for unloading are unloaded.
pub open spec fn spread(s: LibraryView) -> LibraryView {
    s.emit(seq![UnitEventView::RescanStart]).propagate().unload()
}

/// The state and the request after a rescan of `s` whose requests were
/// answered by `replies`, in order.
pub open spec fn after_replies(s: LibraryView, replies: Seq<ReplyView>) -> (LibraryView, RequestView)
    decreases replies.len(),
{
    if replies.len() == 0 {
        s.rescan()
    } else {
        after_replies(s, replies.drop_last()).0.resume(replies.last())
    }
}

/// Whether `p` is a state from which a rescan deals with interfaces.
pub open spec fn sound_start(p: LibraryView) -> bool {
    p.tables_wf() && p.sorted() && p.labels_dirty() && p.labels_started() && p.unloads_withdrawn()
}

/// What spreading and unloading make of a library between two rescans.
pub proof fn lemma_spread(s: LibraryView)
    requires
        s.inv(),
        s.progress is Idle,
    ensures
        sound_start(spread(s)),
        stage_unload(spread(s), spread(s), 0),
        spread(s).progress is Idle,
        spread(s).broadcaster == deliver(s.broadcaster, seq![UnitEventView::RescanStart]),
{
    let announced = s.emit(seq![UnitEventView::RescanStart]);
    assert(holds_no_more(s, announced));
    lemma_sorted_still(s, announced);
    lemma_propagate(announced);
    let dirtied = announced.propagate();
    assert forall|x: UnitNameView| #[trigger] dirtied.unit_status.contains(x) implies dirtied.dirties(
        x,
    ) by {
        assert(dirtied.unit_status.get(x) is Some);
        if announced.unit_status.get(x) is Some {
            assert(s.unit_status.contains(x));
            assert(s.dirties(x));
        }
        assert(dirtied.dirties(x) <==> (announced.dirties(x) || announced.spreads_to(x)));
    }
    lemma_unload(dirtied);
    let p = dirtied.unload();
    assert forall|x: UnitNameView| #[trigger] p.unit_status.contains(x) implies p.dirties(x) by {
        assert(p.unit_status.get(x) is Some);
        assert(dirtied.unit_status.get(x) is Some);
        assert(dirtied.unit_status.contains(x));
        assert(dirtied.dirties(x));
    }
    assert forall|x: UnitNameView| #[trigger] p.unit_status.contains(
        x,
    ) implies p.unit_status.entries[x].is_started() by {
        assert(p.unit_status.get(x) is Some);
        assert(p.unit_status.get(x) == dirtied.unit_status.get(x));
        assert(dirtied.unit_status.get(x) == if announced.spreads_to(x) && !is_started(
            announced.unit_status,
            x,
        ) {
            Some(UnitStatusView::UpdateStarted)
        } else {
            announced.unit_status.get(x)
        });
        if announced.unit_status.get(x) is Some {
            assert(s.unit_status.contains(x));
        }
    }
    assert forall|x: UnitNameView| #[trigger] p.describes(x) implies p.unit_status.get(x) != Some(
        UnitStatusView::UnloadStarted,
    ) by {
        assert(s.describes(x));
        assert(p.unit_status.get(x) == if dirtied.unloads(x) {
            None
        } else {
            dirtied.unit_status.get(x)
        });
        assert(dirtied.unit_status.get(x) == if announced.spreads_to(x) && !is_started(
            announced.unit_status,
            x,
        ) {
            Some(UnitStatusView::UpdateStarted)
        } else {
            announced.unit_status.get(x)
        });
    }
    assert(p.interfaces.dirty.order.take(0) =~= Seq::empty());
}

/// A rescan runs soundly up to its first request.
pub proof fn lemma_rescan(s: LibraryView, answers: Answers)
    requires
        s.inv(),
        s.progress is Idle,
    ensures
        goes_on(spread(s), spread(s), s.rescan()),
        answered(spread(s), s.rescan().0, answers),
{
    lemma_spread(s);
    let p = spread(s);
    lemma_unload_interfaces_from(p, p, 0, answers);
}

/// The events that tell how stopping an interface went are events of a
/// rescan.
pub proof fn lemma_deactivate_events(name: UnitNameView, outcome: Result<(), Seq<char>>, told: bool)
    ensures
        rescan_events(deactivate_events(name, outcome, told)),
        rescan_events(
            deactivate_events(name, outcome, told).push(
                UnitEventView::Status(name, UnitStatusView::Deselected),
            ),
        ),
{
}

/// An answer makes a rescan go on soundly.
pub proof fn lemma_resume(p: LibraryView, t: LibraryView, reply: ReplyView, answers: Answers)
    requires
        sound_start(p),
        t.inv(),
        stage(p, t),
        !(t.progress is Idle),
    ensures
        goes_on(p, t, t.resume(reply)),
        answered(p, t, answers) && reply == answer(answers, t.pending()) ==> answered(
            p,
            t.resume(reply).0,
            answers,
        ),
{
    let as_asked = answered(p, t, answers) && reply == answer(answers, t.pending());
    lemma_publishes_nothing(t.broadcaster);
    match (t.progress, reply) {
        (ProgressView::Unloading(i), ReplyView::Deactivated(outcome)) => {
            let name = t.interfaces.dirty.order[i];
            let events = deactivate_events(name, outcome, false);
            let told = t.emit(events);
            lemma_deactivate_events(name, outcome, false);
            lemma_publishes_step(t.broadcaster, told.broadcaster, events);
            assert(holds_no_more(t, told));
            lemma_sorted_still(t, told);
            assert(stage_unload(p, told, i + 1));
            lemma_unload_interfaces_from(p, told, i + 1, answers);
            lemma_told_more(
                t.broadcaster,
                told.broadcaster,
                told.unload_interfaces_from(i + 1).0.broadcaster,
                told.unload_interfaces_from(i + 1).0.progress is Idle,
                selected_tests(p, told.unload_interfaces_from(i + 1).0),
            );
        },
        (ProgressView::Reloading(i), ReplyView::Deactivated(outcome)) => {
            let name = t.interfaces.dirty.order[i];
            let events = deactivate_events(name, outcome, true).push(
                UnitEventView::Status(name, UnitStatusView::Deselected),
            );
            let told = t.emit(events);
            lemma_deactivate_events(name, outcome, true);
            lemma_publishes_step(t.broadcaster, told.broadcaster, events);
            assert(holds_no_more(t, told));
            lemma_sorted_still(t, told);
            assert(stage_load(p, told, i, true));
            assert forall|x: UnitNameView| #[trigger] told.unit_status.contains(x) implies told.awaits_load(
                x,
                i,
            ) by {
                assert(t.unit_status.contains(x));
                assert(t.awaits_load(x, i));
            }
            if as_asked {
                lemma_started_same(p, t, told, answers, i);
            }
            lemma_select_interface(p, told, i, answers);
            lemma_told_more(
                t.broadcaster,
                told.broadcaster,
                told.select_interface(i).0.broadcaster,
                told.select_interface(i).0.progress is Idle,
                selected_tests(p, told.select_interface(i).0),
            );
        },
        (ProgressView::Activating(i), ReplyView::Activated(outcome)) => {
            let name = t.interfaces.dirty.order[i];
            let after = t.activated(i, outcome);
            let bare = LibraryView { candidate: None, ..t };
            assert(stage_load(p, bare, i, true));
            assert(holds_no_more(t, bare));
            lemma_sorted_still(t, bare);
            assert forall|x: UnitNameView| #[trigger] bare.unit_status.contains(x) implies bare.awaits_load(
                x,
                i,
            ) by {
                assert(t.unit_status.contains(x));
                assert(t.awaits_load(x, i));
            }
            let settled = bare.settle(name);
            lemma_settled(p, bare, settled, i, true);
            lemma_skip_contains(t.interfaces.dirty.order, i);
            lemma_table_order(t.interfaces.dirty, name);
            assert(t.interfaces.dirty.order.contains(name));
            assert(t.interfaces.holds(name));
            match outcome {
                Ok(()) => {
                    let unit = InterfaceView { running: true, ..t.candidate->0 };
                    lemma_publishes_step(
                        t.broadcaster,
                        after.broadcaster,
                        seq![UnitEventView::Status(name, UnitStatusView::Active)],
                    );
                    settled.interfaces.live.lemma_insert_wf(name, unit);
                    assert(after.interfaces.live == settled.interfaces.live.insert(name, unit));
                    assert forall|x: UnitNameView| #[trigger] after.interfaces.holds(x) implies x.kind
                        == UnitKind::Interface by {
                        if x != name {
                            assert(t.interfaces.holds(x));
                        }
                    }
                    assert forall|x: UnitNameView| #[trigger] after.jigs.holds(x) implies x.kind
                        == UnitKind::Jig by {
                        assert(t.jigs.holds(x));
                    }
                    assert forall|x: UnitNameView| #[trigger] after.tests.holds(x) implies x.kind
                        == UnitKind::Test by {
                        assert(t.tests.holds(x));
                    }
                    assert forall|x: UnitNameView| #[trigger] after.scenarios.holds(x) implies x.kind
                        == UnitKind::Scenario by {
                        assert(t.scenarios.holds(x));
                    }
                    assert forall|x: UnitNameView|
                        #![trigger after.unit_status.get(x)]
                        #![trigger after.interfaces.live.get(x)]
                        if x.kind == UnitKind::Jig {
                            after.unit_status.get(x) is None && after.interfaces.live.get(x) is None
                        } else if p.unloads_interface(x) || p.interfaces.dirty.order.take(
                            i + 1,
                        ).contains(x) {
                            after.unit_status.get(x) is None && interface_done(p, after, x)
                        } else {
                            &&& after.unit_status.get(x) == p.unit_status.get(x)
                            &&& after.interfaces.live.get(x) == p.interfaces.live.get(x)
                        } by {
                        assert(after.unit_status.get(x) == settled.unit_status.get(x));
                        assert(after.interfaces.live.get(x) == if x == name {
                            Some(unit)
                        } else {
                            settled.interfaces.live.get(x)
                        });
                        assert(after.jigs.live == settled.jigs.live);
                        if x != name && x.kind != UnitKind::Jig && (p.unloads_interface(x)
                            || p.interfaces.dirty.order.take(i + 1).contains(x)) {
                            assert(interface_done(p, settled, x));
                        }
                        if x == name {
                            assert(!p.unloads_interface(x)) by {
                                assert(p.unit_status.get(x) == Some(UnitStatusView::UnloadStarted)
                                    ==> !asks_load(p.unit_status, x));
                            }
                            assert(p.fresh_interface(x, after.jigs.live) == Some(unit));
                        }
                    }
                    assert forall|x: UnitNameView| #[trigger] after.unit_status.contains(
                        x,
                    ) implies after.awaits_load(x, i + 1) by {
                        assert(settled.unit_status.contains(x));
                        assert(settled.awaits_load(x, i + 1));
                    }
                },
                Err(why) => {
                    lemma_publishes_step(
                        t.broadcaster,
                        after.broadcaster,
                        seq![UnitEventView::Status(name, UnitStatusView::ActiveFailed(why))],
                    );
                    assert(holds_no_more(settled, after));
                    lemma_sorted_still(settled, after);
                    assert(stage_load(p, after, i + 1, false));
                    assert forall|x: UnitNameView| #[trigger] after.unit_status.contains(
                        x,
                    ) implies after.awaits_load(x, i + 1) by {
                        assert(settled.unit_status.contains(x));
                        assert(settled.awaits_load(x, i + 1));
                    }
                },
            }
            if as_asked {
                assert(t.pending() == RequestView::Activate(t.candidate->0.id));
                assert(outcome == (answers.start)(p.interfaces.descriptions.entries[name].id));
                assert(after.jigs.live == t.jigs.live);
                assert forall|x: UnitNameView| x != name implies #[trigger] after.interfaces.live.get(
                    x,
                ) == t.interfaces.live.get(x) by {}
                assert(t.interfaces.live.get(name) is None);
                lemma_started_more(p, t, after, answers, i);
            }
            lemma_load_interfaces_from(p, after, i + 1, answers);
            lemma_told_more(
                t.broadcaster,
                after.broadcaster,
                after.load_interfaces_from(i + 1).0.broadcaster,
                after.load_interfaces_from(i + 1).0.progress is Idle,
                selected_tests(p, after.load_interfaces_from(i + 1).0),
            );
        },
        _ => {},
    }
}

/// However its requests are answered, a rescan goes on soundly: the state
/// meets the invariant and stands where the rescan has come to; since the
/// start of the rescan was announced the subscribers have heard what became
/// of units, and then, if the rescan is at its end, that it finished.
pub proof fn lemma_run(s: LibraryView, replies: Seq<ReplyView>)
    requires
        s.inv(),
        s.progress is Idle,
    ensures
        ({
            let (t, request) = after_replies(s, replies);
            &&& t.inv()
            &&& stage(spread(s), t)
            &&& request == t.pending()
            &&& told(
                spread(s).broadcaster,
                t.broadcaster,
                t.progress is Idle,
                selected_tests(spread(s), t),
            )
        }),
    decreases replies.len(),
{
    lemma_spread(s);
    if replies.len() == 0 {
        lemma_rescan(s, arbitrary());
    } else {
        lemma_run(s, replies.drop_last());
        let (before, _) = after_replies(s, replies.drop_last());
        if !(before.progress is Idle) {
            lemma_resume(spread(s), before, replies.last(), arbitrary());
            lemma_told_more(
                spread(s).broadcaster,
                before.broadcaster,
                before.resume(replies.last()).0.broadcaster,
                before.resume(replies.last()).0.progress is Idle,
                selected_tests(spread(s), before.resume(replies.last()).0),
            );
        }
    }
}

/// Whether `t` is a stop of a rescan that came to the sound state `p`.
pub open spec fn began(p: LibraryView, t: LibraryView) -> bool {
    sound_start(p) && stage(p, t)
}

impl LibraryView {
    /// The invariant of the library: what `inv` says, and while a rescan
    /// waits for an answer, the state is one that a rescan comes to.
    pub open spec fn wf(self) -> bool {
        &&& self.inv()
        &&& !(self.progress is Idle) ==> exists|p: LibraryView| #[trigger] began(p, self)
    }

    /// The invariant does not look at the subscribers' queues.
    pub proof fn lemma_wf_but_queues(self, other: LibraryView)
        requires
            self.wf(),
            other == (LibraryView { broadcaster: other.broadcaster, ..self }),
        ensures
            other.wf(),
    {
        assert(holds_no_more(self, other));
        lemma_sorted_still(self, other);
        assert forall|name: UnitNameView| #[trigger] other.unit_status.contains(
            name,
        ) implies other.unit_status.entries[name].is_started() by {
            assert(self.unit_status.contains(name));
        }
        assert forall|name: UnitNameView| #[trigger] other.describes(
            name,
        ) implies other.unit_status.get(name) != Some(UnitStatusView::UnloadStarted) by {
            assert(self.describes(name));
        }
        assert forall|name: UnitNameView| #[trigger] other.is_dirty(name) implies self.is_dirty(
            name,
        ) by {}
        assert forall|name: UnitNameView| #[trigger] other.unit_status.contains(name) implies (
        other.dirties(name) <==> self.dirties(name)) && (forall|i: int|
            other.awaits_load(name, i) <==> self.awaits_load(name, i)) by {}
        if !(self.progress is Idle) {
            let p = choose|p: LibraryView| #[trigger] began(p, self);
            assert(began(p, other));
        }
    }

    /// A description that comes in under its own kind keeps the invariant.
    pub proof fn lemma_update_interface_description(self, d: InterfaceDescriptionView)
        requires
            self.wf(),
            self.progress is Idle,
            d.id.kind == UnitKind::Interface,
        ensures
            self.update_interface_description(d).wf(),
    {
        let after = self.update_interface_description(d);
        self.unit_status.lemma_insert_wf(d.id, after.unit_status.entries[d.id]);
        self.interfaces.descriptions.lemma_insert_wf(d.id, d);
        self.interfaces.dirty.lemma_insert_wf(d.id, ());
        lemma_upserted(self, after, d.id);
    }

    pub proof fn lemma_update_jig_description(self, d: JigView)
        requires
            self.wf(),
            self.progress is Idle,
            d.id.kind == UnitKind::Jig,
        ensures
            self.update_jig_description(d).wf(),
    {
        let after = self.update_jig_description(d);
        self.unit_status.lemma_insert_wf(d.id, after.unit_status.entries[d.id]);
        self.jigs.descriptions.lemma_insert_wf(d.id, d);
        self.jigs.dirty.lemma_insert_wf(d.id, ());
        lemma_upserted(self, after, d.id);
    }

    pub proof fn lemma_update_scenario_description(self, d: ScenarioView)
        requires
            self.wf(),
            self.progress is Idle,
            d.id.kind == UnitKind::Scenario,
        ensures
            self.update_scenario_description(d).wf(),
    {
        let after = self.update_scenario_description(d);
        self.unit_status.lemma_insert_wf(d.id, after.unit_status.entries[d.id]);
        self.scenarios.descriptions.lemma_insert_wf(d.id, d);
        self.scenarios.dirty.lemma_insert_wf(d.id, ());
        lemma_upserted(self, after, d.id);
    }

    pub proof fn lemma_update_test_description(self, d: TestView)
        requires
            self.wf(),
            self.progress is Idle,
            d.id.kind == UnitKind::Test,
        ensures
            self.update_test_description(d).wf(),
    {
        let after = self.update_test_description(d);
        self.unit_status.lemma_insert_wf(d.id, after.unit_status.entries[d.id]);
        self.tests.descriptions.lemma_insert_wf(d.id, d);
        self.tests.dirty.lemma_insert_wf(d.id, ());
        lemma_upserted(self, after, d.id);
    }

    /// A description that is withdrawn under its own kind keeps the
    /// invariant.
    pub proof fn lemma_remove_interface(self, id: UnitNameView)
        requires
            self.wf(),
            self.progress is Idle,
            id.kind == UnitKind::Interface,
        ensures
            self.remove_interface(id).wf(),
    {
        let after = self.remove_interface(id);
        self.unit_status.lemma_insert_wf(id, UnitStatusView::UnloadStarted);
        self.interfaces.descriptions.lemma_remove_wf(id);
        self.interfaces.dirty.lemma_insert_wf(id, ());
        lemma_upserted(self, after, id);
    }

    pub proof fn lemma_remove_jig(self, id: UnitNameView)
        requires
            self.wf(),
            self.progress is Idle,
            id.kind == UnitKind::Jig,
        ensures
            self.remove_jig(id).wf(),
    {
        let after = self.remove_jig(id);
        self.unit_status.lemma_insert_wf(id, UnitStatusView::UnloadStarted);
        self.jigs.descriptions.lemma_remove_wf(id);
        self.jigs.dirty.lemma_insert_wf(id, ());
        lemma_upserted(self, after, id);
    }

    pub proof fn lemma_remove_scenario(self, id: UnitNameView)
        requires
            self.wf(),
            self.progress is Idle,
            id.kind == UnitKind::Scenario,
        ensures
            self.remove_scenario(id).wf(),
    {
        let after = self.remove_scenario(id);
        self.unit_status.lemma_insert_wf(id, UnitStatusView::UnloadStarted);
        self.scenarios.descriptions.lemma_remove_wf(id);
        self.scenarios.dirty.lemma_insert_wf(id, ());
        lemma_upserted(self, after, id);
    }

    pub proof fn lemma_remove_test(self, id: UnitNameView)
        requires
            self.wf(),
            self.progress is Idle,
            id.kind == UnitKind::Test,
        ensures
            self.remove_test(id).wf(),
    {
        let after = self.remove_test(id);
        self.unit_status.lemma_insert_wf(id, UnitStatusView::UnloadStarted);
        self.tests.descriptions.lemma_remove_wf(id);
        self.tests.dirty.lemma_insert_wf(id, ());
        lemma_upserted(self, after, id);
    }

    /// A rescan keeps the invariant up to its first request; when it is at
    /// its end, nothing is dirty and no name has a label.
    pub proof fn lemma_rescan_wf(self)
        requires
            self.wf(),
            self.progress is Idle,
        ensures
            ({
                let (t, request) = self.rescan();
                &&& t.wf()
                &&& request is Finished ==> t.nothing_dirty() && t.no_labels()
            }),
    {
        lemma_spread(self);
        lemma_rescan(self, arbitrary());
        assert(began(spread(self), self.rescan().0));
    }

    /// An answer keeps the invariant; when it brings the rescan to its end,
    /// nothing is dirty and no name has a label.
    pub proof fn lemma_resume_wf(self, reply: ReplyView)
        requires
            self.wf(),
        ensures
            ({
                let (t, request) = self.resume(reply);
                &&& t.wf()
                &&& request is Finished && !(self.progress is Idle) ==> t.nothing_dirty()
                    && t.no_labels()
            }),
    {
        if !(self.progress is Idle) {
            let p = choose|p: LibraryView| #[trigger] began(p, self);
            lemma_resume(p, self, reply, arbitrary());
            assert(began(p, self.resume(reply).0));
        }
    }
}

/// What the taking in or the withdrawal of the description of `id` leaves
/// of the invariant: the change is to `id` alone, which is dirty and has a
/// label after it.
pub proof fn lemma_upserted(before: LibraryView, after: LibraryView, id: UnitNameView)
    requires
        before.inv(),
        before.progress is Idle,
        after.tables_wf(),
        after.progress == before.progress,
        after.candidate == before.candidate,
        after.dirties(id),
        after.unit_status.contains(id),
        forall|x: UnitNameView| x != id ==> (#[trigger] after.jigs.holds(x) ==> before.jigs.holds(x)),
        forall|x: UnitNameView| x != id ==> (#[trigger] after.tests.holds(x) ==> before.tests.holds(x)),
        forall|x: UnitNameView|
            x != id ==> (#[trigger] after.scenarios.holds(x) ==> before.scenarios.holds(x)),
        forall|x: UnitNameView|
            x != id ==> (#[trigger] after.interfaces.holds(x) ==> before.interfaces.holds(x)),
        after.jigs.holds(id) ==> id.kind == UnitKind::Jig,
        after.tests.holds(id) ==> id.kind == UnitKind::Test,
        after.scenarios.holds(id) ==> id.kind == UnitKind::Scenario,
        after.interfaces.holds(id) ==> id.kind == UnitKind::Interface,
        forall|x: UnitNameView| x != id ==> (#[trigger] after.is_dirty(x) <==> before.is_dirty(x)),
        forall|x: UnitNameView| x != id ==> (#[trigger] after.dirties(x) <==> before.dirties(x)),
        forall|x: UnitNameView|
            x != id ==> (#[trigger] after.unit_status.contains(x) <==> before.unit_status.contains(x)),
        forall|x: UnitNameView|
            x != id ==> #[trigger] after.unit_status.get(x) == before.unit_status.get(x),
        after.unit_status.entries[id].is_started(),
        after.describes(id) ==> after.unit_status.get(id) != Some(UnitStatusView::UnloadStarted),
        forall|x: UnitNameView| x != id ==> (#[trigger] after.describes(x) ==> before.describes(x)),
    ensures
        after.wf(),
{
    assert forall|x: UnitNameView| #[trigger] after.jigs.holds(x) implies x.kind == UnitKind::Jig by {
        if x != id {
            assert(before.jigs.holds(x));
        }
    }
    assert forall|x: UnitNameView| #[trigger] after.tests.holds(x) implies x.kind
        == UnitKind::Test by {
        if x != id {
            assert(before.tests.holds(x));
        }
    }
    assert forall|x: UnitNameView| #[trigger] after.scenarios.holds(x) implies x.kind
        == UnitKind::Scenario by {
        if x != id {
            assert(before.scenarios.holds(x));
        }
    }
    assert forall|x: UnitNameView| #[trigger] after.interfaces.holds(x) implies x.kind
        == UnitKind::Interface by {
        if x != id {
            assert(before.interfaces.holds(x));
        }
    }
    assert forall|x: UnitNameView| #[trigger] after.is_dirty(x) implies after.unit_status.contains(
        x,
    ) by {
        if x != id {
            assert(before.is_dirty(x));
        }
    }
    assert forall|x: UnitNameView| #[trigger] after.unit_status.contains(x) implies after.dirties(
        x,
    ) by {
        if x != id {
            assert(before.unit_status.contains(x));
            assert(before.dirties(x));
        }
    }
    assert forall|x: UnitNameView| #[trigger] after.unit_status.contains(
        x,
    ) implies after.unit_status.entries[x].is_started() by {
        if x != id {
            assert(after.unit_status.get(x) == before.unit_status.get(x));
            assert(before.unit_status.contains(x));
        }
    }
    assert forall|x: UnitNameView| #[trigger] after.describes(x) implies after.unit_status.get(x)
        != Some(UnitStatusView::UnloadStarted) by {
        if x != id {
            assert(before.describes(x));
            assert(after.unit_status.get(x) == before.unit_status.get(x));
        }
    }
}

} // verus!
