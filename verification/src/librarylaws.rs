//! Laws of the unit library: what holds of whole rescans, however their
//! requests are answered.

use crate::libraryinvariant::{
    after_replies, answer, answered, asks_load, began, finished, holds_no_more, includes,
    interface_done, is_started, lemma_affected_upto, lemma_compatible_same, lemma_empty_table,
    lemma_propagate, lemma_rescan, lemma_resume, lemma_run, lemma_sorted_still, lemma_spread,
    lemma_table_order, lemma_unload, rescan_events, selected_tests, spread, stage, started,
    starts, told, Answers,
};
use crate::librarymodel::{
    affected, count_event, mark_all, selected_event, touches, KindView, LibraryView, Marks,
    ProgressView, ReplyView, RequestView,
};
use crate::unit::{UnitKind, UnitNameView};
use crate::unitbroadcaster::{
    deliver, lemma_deliver_nothing, lemma_deliver_twice, BroadcasterView, UnitEventView,
    UnitStatusView,
};
use crate::units::compatible;
use crate::units::interface::{InterfaceDescription, InterfaceDescriptionView, InterfaceView};
use crate::units::jig::JigView;
use crate::units::scenario::{Scenario, ScenarioDescription, ScenarioView};
use crate::units::test::{TestDescription, TestView};
use crate::unittable::TableView;
use vstd::prelude::*;

verus! {

impl LibraryView {
    /// Whether the unit `id` is loaded, under the kind that `id` names.
    pub open spec fn is_loaded(self, id: UnitNameView) -> bool {
        match id.kind {
            UnitKind::Jig => self.jigs.live.contains(id),
            UnitKind::Interface => self.interfaces.live.contains(id),
            UnitKind::Test => self.tests.live.contains(id),
            UnitKind::Scenario => self.scenarios.live.contains(id),
        }
    }
}

/// Between rescans, every dirty name has a label.
pub proof fn law_dirty_names_have_labels(s: LibraryView, name: UnitNameView)
    requires
        s.wf(),
        s.progress is Idle,
        s.is_dirty(name),
    ensures
        s.unit_status.contains(name),
{
}

/// However the requests of a rescan are answered: once it is at its end,
/// nothing is dirty and no name has a label, so none has one of the labels of
/// loading, updating or unloading.
pub proof fn law_rescan_leaves_nothing_dirty(s: LibraryView, replies: Seq<ReplyView>)
    requires
        s.wf(),
        s.progress is Idle,
        after_replies(s, replies).1 is Finished,
    ensures
        after_replies(s, replies).0.nothing_dirty(),
        after_replies(s, replies).0.no_labels(),
        after_replies(s, replies).0.wf(),
{
    lemma_run(s, replies);
    lemma_spread(s);
    let t = after_replies(s, replies).0;
    if !(t.progress is Idle) {
        assert(began(spread(s), t));
    }
}

/// A list that holds nothing is empty.
pub proof fn lemma_holds_nothing(names: Seq<UnitNameView>)
    requires
        forall|x: UnitNameView| !#[trigger] names.contains(x),
    ensures
        names == Seq::<UnitNameView>::empty(),
{
    if names.len() > 0 {
        assert(names.contains(names[0]));
    }
    assert(names =~= Seq::empty());
}

/// A rescan of a library in which nothing is dirty changes nothing and
/// publishes two events: that it started and that it finished. It makes no
/// request.
pub proof fn law_rescan_of_a_clean_library(s: LibraryView)
    requires
        s.wf(),
        s.progress is Idle,
        s.nothing_dirty(),
    ensures
        s.rescan() == (
            s.emit(seq![UnitEventView::RescanStart, UnitEventView::RescanFinish]),
            RequestView::Finished,
        ),
{
    let a = s.emit(seq![UnitEventView::RescanStart]);
    lemma_empty_table(s.jigs.dirty);
    lemma_empty_table(s.tests.dirty);
    lemma_empty_table(s.scenarios.dirty);
    lemma_empty_table(s.interfaces.dirty);
    let none = Seq::<UnitNameView>::empty();
    let names1 = affected::<TestDescription>(a.tests.descriptions, none);
    let names2 = affected::<ScenarioDescription>(a.scenarios.descriptions, none);
    let names3 = affected::<InterfaceDescription>(a.interfaces.descriptions, none);
    let names4 = affected::<Scenario>(a.scenarios.live, none);
    lemma_affected_upto::<TestDescription>(a.tests.descriptions, none, a.tests.descriptions.order.len() as int);
    lemma_affected_upto::<ScenarioDescription>(
        a.scenarios.descriptions,
        none,
        a.scenarios.descriptions.order.len() as int,
    );
    lemma_affected_upto::<InterfaceDescription>(
        a.interfaces.descriptions,
        none,
        a.interfaces.descriptions.order.len() as int,
    );
    lemma_affected_upto::<Scenario>(a.scenarios.live, none, a.scenarios.live.order.len() as int);
    lemma_holds_nothing(names1);
    lemma_holds_nothing(names2);
    lemma_holds_nothing(names3);
    lemma_holds_nothing(names4);
    let m0 = Marks { dirty: a.tests.dirty, status: a.unit_status };
    assert(mark_all(m0, names1) == m0);
    let m1 = Marks { dirty: a.scenarios.dirty, status: a.unit_status };
    assert(mark_all(m1, names2) == m1);
    let m2 = Marks { dirty: a.interfaces.dirty, status: a.unit_status };
    assert(mark_all(m2, names3) == m2);
    assert(mark_all(m1, names4) == m1);
    assert(a.propagate() == a);
    assert(a.unload() == a);
    lemma_deliver_nothing(a.broadcaster);
    assert(a.load_jigs() == a);
    assert(a.unload_interfaces_from(0) == a.load_interfaces_from(0));
    let b = LibraryView {
        interfaces: KindView { dirty: TableView::empty(), ..a.interfaces },
        progress: ProgressView::Idle,
        candidate: None,
        ..a
    };
    assert(b == a);
    assert(a.load_tests() == a);
    assert(a.load_scenarios() == a);
    assert(a.finish() == a.emit(seq![UnitEventView::RescanFinish]));
    lemma_deliver_twice(
        s.broadcaster,
        seq![UnitEventView::RescanStart],
        seq![UnitEventView::RescanFinish],
    );
    assert(seq![UnitEventView::RescanStart] + seq![UnitEventView::RescanFinish]
        =~= seq![UnitEventView::RescanStart, UnitEventView::RescanFinish]);
}

/// Of two rescans in a row with nothing done to the library in between, the
/// second changes nothing and publishes only its start and its end.
pub proof fn law_second_rescan_only_announces_itself(s: LibraryView, replies: Seq<ReplyView>)
    requires
        s.wf(),
        s.progress is Idle,
        after_replies(s, replies).1 is Finished,
    ensures
        ({
            let t = after_replies(s, replies).0;
            t.rescan() == (
                t.emit(seq![UnitEventView::RescanStart, UnitEventView::RescanFinish]),
                RequestView::Finished,
            )
        }),
{
    law_rescan_leaves_nothing_dirty(s, replies);
    lemma_run(s, replies);
    law_rescan_of_a_clean_library(after_replies(s, replies).0);
}

/// The label that a description gets when it comes in: that of loading when
/// the library held no description under its name, that of updating when it
/// did. So the same description brought in twice is first loaded, then
/// updated.
pub proof fn law_upsert_labels_interface(s: LibraryView, d: InterfaceDescriptionView)
    ensures
        s.update_interface_description(d).unit_status.get(d.id) == Some(
            if s.interfaces.descriptions.contains(d.id) {
                UnitStatusView::UpdateStarted
            } else {
                UnitStatusView::LoadStarted
            },
        ),
        s.update_interface_description(d).update_interface_description(d).unit_status.get(d.id)
            == Some(UnitStatusView::UpdateStarted),
{
}

/// See `law_upsert_labels_interface`.
pub proof fn law_upsert_labels_jig(s: LibraryView, d: JigView)
    ensures
        s.update_jig_description(d).unit_status.get(d.id) == Some(
            if s.jigs.descriptions.contains(d.id) {
                UnitStatusView::UpdateStarted
            } else {
                UnitStatusView::LoadStarted
            },
        ),
        s.update_jig_description(d).update_jig_description(d).unit_status.get(d.id) == Some(
            UnitStatusView::UpdateStarted,
        ),
{
}

/// See `law_upsert_labels_interface`.
pub proof fn law_upsert_labels_scenario(s: LibraryView, d: ScenarioView)
    ensures
        s.update_scenario_description(d).unit_status.get(d.id) == Some(
            if s.scenarios.descriptions.contains(d.id) {
                UnitStatusView::UpdateStarted
            } else {
                UnitStatusView::LoadStarted
            },
        ),
        s.update_scenario_description(d).update_scenario_description(d).unit_status.get(d.id)
            == Some(UnitStatusView::UpdateStarted),
{
}

/// See `law_upsert_labels_interface`.
pub proof fn law_upsert_labels_test(s: LibraryView, d: TestView)
    ensures
        s.update_test_description(d).unit_status.get(d.id) == Some(
            if s.tests.descriptions.contains(d.id) {
                UnitStatusView::UpdateStarted
            } else {
                UnitStatusView::LoadStarted
            },
        ),
        s.update_test_description(d).update_test_description(d).unit_status.get(d.id) == Some(
            UnitStatusView::UpdateStarted,
        ),
{
}

/// A unit that is dirty, marked for unloading and without a description when
/// a rescan begins is neither described nor loaded when the rescan is at its
/// end, however the requests are answered.
pub proof fn lemma_withdrawn_unit_is_gone(s: LibraryView, id: UnitNameView, replies: Seq<ReplyView>)
    requires
        s.wf(),
        s.progress is Idle,
        s.dirties(id),
        s.unit_status.get(id) == Some(UnitStatusView::UnloadStarted),
        !s.describes(id),
        after_replies(s, replies).1 is Finished,
    ensures
        !after_replies(s, replies).0.describes(id),
        !after_replies(s, replies).0.is_loaded(id),
{
    lemma_run(s, replies);
    lemma_spread(s);
    let announced = s.emit(seq![UnitEventView::RescanStart]);
    assert(holds_no_more(s, announced));
    lemma_sorted_still(s, announced);
    lemma_propagate(announced);
    let dirtied = announced.propagate();
    lemma_unload(dirtied);
    let p = spread(s);
    let t = after_replies(s, replies).0;
    assert(dirtied.dirties(id) <==> (announced.dirties(id) || announced.spreads_to(id)));
    assert(dirtied.unit_status.get(id) == Some(UnitStatusView::UnloadStarted));
    assert(p.unit_status.get(id) == if dirtied.unloads(id) {
        None
    } else {
        dirtied.unit_status.get(id)
    });
    assert(t.jigs.live.get(id) == p.jig_after(id));
    assert(t.tests.live.get(id) == p.test_after(id, t.jigs.live));
    assert(t.scenarios.live.get(id) == p.scenario_after(id, t.jigs.live));
    assert(interface_done(p, t, id));
    assert(p.jigs.live.get(id) == if dirtied.unloads(id) {
        None
    } else {
        dirtied.jigs.live.get(id)
    });
    assert(p.tests.live.get(id) == if dirtied.unloads(id) {
        None
    } else {
        dirtied.tests.live.get(id)
    });
    assert(p.scenarios.live.get(id) == if dirtied.unloads(id) {
        None
    } else {
        dirtied.scenarios.live.get(id)
    });
}

/// Whether the queues `after` are the queues `before` with this published:
/// the events `first`, then that a rescan started, then what became of
/// units, `event` among it if one is given, then that the rescan finished.
pub open spec fn heard(
    before: BroadcasterView,
    first: Seq<UnitEventView>,
    after: BroadcasterView,
    event: Option<UnitEventView>,
) -> bool {
    exists|events: Seq<UnitEventView>| #[trigger]
        rescan_events(events) && (event is Some ==> events.contains(event->0)) && after == deliver(
            before,
            first + seq![UnitEventView::RescanStart] + events.push(UnitEventView::RescanFinish),
        )
}

/// What was published before a rescan and what the rescan publishes make up
/// what the subscribers hear.
pub proof fn lemma_heard(
    before: BroadcasterView,
    first: Seq<UnitEventView>,
    begun: BroadcasterView,
    after: BroadcasterView,
    must: Set<UnitEventView>,
    event: Option<UnitEventView>,
)
    requires
        begun == deliver(deliver(before, first), seq![UnitEventView::RescanStart]),
        told(begun, after, true, must),
        event is Some ==> must.contains(event->0),
    ensures
        heard(before, first, after, event),
{
    let events = choose|events: Seq<UnitEventView>| #[trigger]
        deliver(begun, events.push(UnitEventView::RescanFinish)) == after && rescan_events(events)
            && includes(events, must);
    lemma_deliver_twice(before, first, seq![UnitEventView::RescanStart]);
    lemma_deliver_twice(
        before,
        first + seq![UnitEventView::RescanStart],
        events.push(UnitEventView::RescanFinish),
    );
    assert(rescan_events(events) && (event is Some ==> events.contains(event->0)) && after
        == deliver(
        before,
        first + seq![UnitEventView::RescanStart] + events.push(UnitEventView::RescanFinish),
    ));
}

/// All that a rescan publishes, however its requests are answered: first
/// that it started, then what became of units, and last that it finished.
/// It publishes its start and its end once each, and nothing after its end.
pub proof fn law_rescan_is_bracketed(s: LibraryView, replies: Seq<ReplyView>)
    requires
        s.wf(),
        s.progress is Idle,
        after_replies(s, replies).1 is Finished,
    ensures
        heard(s.broadcaster, Seq::empty(), after_replies(s, replies).0.broadcaster, None),
{
    lemma_run(s, replies);
    lemma_spread(s);
    lemma_deliver_nothing(s.broadcaster);
    lemma_heard(
        s.broadcaster,
        Seq::empty(),
        spread(s).broadcaster,
        after_replies(s, replies).0.broadcaster,
        selected_tests(spread(s), after_replies(s, replies).0),
        None,
    );
}

/// A test whose description comes in and is withdrawn again before the next
/// rescan is neither described nor loaded after that rescan, however its
/// requests are answered. The subscribers hear the count of the tests and,
/// once, that the test is unloading; then the rescan, of whose events none
/// tells of an unloading.
pub proof fn law_upsert_then_remove_test(s: LibraryView, d: TestView, replies: Seq<ReplyView>)
    requires
        s.wf(),
        s.progress is Idle,
        d.id.kind == UnitKind::Test,
        after_replies(s.update_test_description(d).remove_test(d.id), replies).1 is Finished,
    ensures
        ({
            let t = after_replies(s.update_test_description(d).remove_test(d.id), replies).0;
            &&& !t.tests.descriptions.contains(d.id)
            &&& !t.tests.live.contains(d.id)
            &&& heard(
                s.broadcaster,
                seq![
                    count_event(
                        UnitKind::Test,
                        s.update_test_description(d).tests.descriptions.order.len(),
                    ),
                    UnitEventView::Status(d.id, UnitStatusView::Unloading),
                ],
                t.broadcaster,
                None,
            )
        }),
{
    let one = s.update_test_description(d);
    let two = one.remove_test(d.id);
    s.lemma_update_test_description(d);
    one.lemma_remove_test(d.id);
    lemma_withdrawn_unit_is_gone(two, d.id, replies);
    lemma_run(two, replies);
    let count = count_event(UnitKind::Test, one.tests.descriptions.order.len());
    let unloading = UnitEventView::Status(d.id, UnitStatusView::Unloading);
    lemma_deliver_twice(s.broadcaster, seq![count], seq![unloading]);
    assert(seq![count] + seq![unloading] =~= seq![count, unloading]);
    lemma_spread(two);
    lemma_heard(
        s.broadcaster,
        seq![count, unloading],
        spread(two).broadcaster,
        after_replies(two, replies).0.broadcaster,
        selected_tests(spread(two), after_replies(two, replies).0),
        None,
    );
}

/// See `law_upsert_then_remove_test`.
pub proof fn law_upsert_then_remove_jig(s: LibraryView, d: JigView, replies: Seq<ReplyView>)
    requires
        s.wf(),
        s.progress is Idle,
        d.id.kind == UnitKind::Jig,
        after_replies(s.update_jig_description(d).remove_jig(d.id), replies).1 is Finished,
    ensures
        ({
            let t = after_replies(s.update_jig_description(d).remove_jig(d.id), replies).0;
            &&& !t.jigs.descriptions.contains(d.id)
            &&& !t.jigs.live.contains(d.id)
            &&& heard(
                s.broadcaster,
                seq![
                    count_event(
                        UnitKind::Jig,
                        s.update_jig_description(d).jigs.descriptions.order.len(),
                    ),
                    UnitEventView::Status(d.id, UnitStatusView::Unloading),
                ],
                t.broadcaster,
                None,
            )
        }),
{
    let one = s.update_jig_description(d);
    let two = one.remove_jig(d.id);
    s.lemma_update_jig_description(d);
    one.lemma_remove_jig(d.id);
    lemma_withdrawn_unit_is_gone(two, d.id, replies);
    lemma_run(two, replies);
    let count = count_event(UnitKind::Jig, one.jigs.descriptions.order.len());
    let unloading = UnitEventView::Status(d.id, UnitStatusView::Unloading);
    lemma_deliver_twice(s.broadcaster, seq![count], seq![unloading]);
    assert(seq![count] + seq![unloading] =~= seq![count, unloading]);
    lemma_spread(two);
    lemma_heard(
        s.broadcaster,
        seq![count, unloading],
        spread(two).broadcaster,
        after_replies(two, replies).0.broadcaster,
        selected_tests(spread(two), after_replies(two, replies).0),
        None,
    );
}

/// See `law_upsert_then_remove_test`.
pub proof fn law_upsert_then_remove_scenario(s: LibraryView, d: ScenarioView, replies: Seq<ReplyView>)
    requires
        s.wf(),
        s.progress is Idle,
        d.id.kind == UnitKind::Scenario,
        after_replies(s.update_scenario_description(d).remove_scenario(d.id), replies).1 is Finished,
    ensures
        ({
            let t = after_replies(
                s.update_scenario_description(d).remove_scenario(d.id),
                replies,
            ).0;
            &&& !t.scenarios.descriptions.contains(d.id)
            &&& !t.scenarios.live.contains(d.id)
            &&& heard(
                s.broadcaster,
                seq![
                    count_event(
                        UnitKind::Scenario,
                        s.update_scenario_description(d).scenarios.descriptions.order.len(),
                    ),
                    UnitEventView::Status(d.id, UnitStatusView::Unloading),
                ],
                t.broadcaster,
                None,
            )
        }),
{
    let one = s.update_scenario_description(d);
    let two = one.remove_scenario(d.id);
    s.lemma_update_scenario_description(d);
    one.lemma_remove_scenario(d.id);
    lemma_withdrawn_unit_is_gone(two, d.id, replies);
    lemma_run(two, replies);
    let count = count_event(UnitKind::Scenario, one.scenarios.descriptions.order.len());
    let unloading = UnitEventView::Status(d.id, UnitStatusView::Unloading);
    lemma_deliver_twice(s.broadcaster, seq![count], seq![unloading]);
    assert(seq![count] + seq![unloading] =~= seq![count, unloading]);
    lemma_spread(two);
    lemma_heard(
        s.broadcaster,
        seq![count, unloading],
        spread(two).broadcaster,
        after_replies(two, replies).0.broadcaster,
        selected_tests(spread(two), after_replies(two, replies).0),
        None,
    );
}

/// See `law_upsert_then_remove_test`. An interface that was loaded is taken
/// out with a request to stop it; it is not started again.
pub proof fn law_upsert_then_remove_interface(
    s: LibraryView,
    d: InterfaceDescriptionView,
    replies: Seq<ReplyView>,
)
    requires
        s.wf(),
        s.progress is Idle,
        d.id.kind == UnitKind::Interface,
        after_replies(s.update_interface_description(d).remove_interface(d.id), replies).1
            is Finished,
    ensures
        ({
            let t = after_replies(
                s.update_interface_description(d).remove_interface(d.id),
                replies,
            ).0;
            &&& !t.interfaces.descriptions.contains(d.id)
            &&& !t.interfaces.live.contains(d.id)
            &&& heard(
                s.broadcaster,
                seq![
                    count_event(
                        UnitKind::Interface,
                        s.update_interface_description(d).interfaces.descriptions.order.len(),
                    ),
                    UnitEventView::Status(d.id, UnitStatusView::Unloading),
                ],
                t.broadcaster,
                None,
            )
        }),
{
    let one = s.update_interface_description(d);
    let two = one.remove_interface(d.id);
    s.lemma_update_interface_description(d);
    one.lemma_remove_interface(d.id);
    lemma_withdrawn_unit_is_gone(two, d.id, replies);
    lemma_run(two, replies);
    let count = count_event(UnitKind::Interface, one.interfaces.descriptions.order.len());
    let unloading = UnitEventView::Status(d.id, UnitStatusView::Unloading);
    lemma_deliver_twice(s.broadcaster, seq![count], seq![unloading]);
    assert(seq![count] + seq![unloading] =~= seq![count, unloading]);
    lemma_spread(two);
    lemma_heard(
        s.broadcaster,
        seq![count, unloading],
        spread(two).broadcaster,
        after_replies(two, replies).0.broadcaster,
        selected_tests(spread(two), after_replies(two, replies).0),
        None,
    );
}

/// What a rescan comes to before it deals with interfaces, name by name;
/// see `lemma_propagate` and `lemma_unload`.
pub proof fn lemma_spread_pointwise(s: LibraryView)
    requires
        s.wf(),
        s.progress is Idle,
    ensures
        ({
            let p = spread(s);
            &&& p.jigs.descriptions == s.jigs.descriptions
            &&& p.tests.descriptions == s.tests.descriptions
            &&& p.scenarios.descriptions == s.scenarios.descriptions
            &&& p.interfaces.descriptions == s.interfaces.descriptions
            &&& p.interfaces.live == s.interfaces.live
            &&& p.jigs.dirty == s.jigs.dirty
            &&& forall|x: UnitNameView| #[trigger] p.dirties(x) <==> (s.dirties(x) || s.spreads_to(x))
            &&& forall|x: UnitNameView| #[trigger]
                p.unit_status.get(x) == if s.withdraws(x) {
                    None
                } else if s.spreads_to(x) && !is_started(s.unit_status, x) {
                    Some(UnitStatusView::UpdateStarted)
                } else {
                    s.unit_status.get(x)
                }
            &&& forall|x: UnitNameView| #[trigger]
                p.jigs.live.get(x) == if s.withdraws(x) {
                    None
                } else {
                    s.jigs.live.get(x)
                }
            &&& forall|x: UnitNameView| #[trigger]
                p.tests.live.get(x) == if s.withdraws(x) {
                    None
                } else {
                    s.tests.live.get(x)
                }
            &&& forall|x: UnitNameView| #[trigger]
                p.scenarios.live.get(x) == if s.withdraws(x) {
                    None
                } else {
                    s.scenarios.live.get(x)
                }
        }),
{
    let announced = s.emit(seq![UnitEventView::RescanStart]);
    assert(holds_no_more(s, announced));
    lemma_sorted_still(s, announced);
    lemma_propagate(announced);
    let dirtied = announced.propagate();
    lemma_unload(dirtied);
    let p = spread(s);
    assert forall|x: UnitNameView| announced.spreads_to(x) == s.spreads_to(x) by {
        lemma_same_spreading(announced, s, x);
    }
    assert forall|x: UnitNameView| dirtied.unloads(x) == s.withdraws(x) by {
        assert(dirtied.dirties(x) <==> (announced.dirties(x) || announced.spreads_to(x)));
        assert(dirtied.unit_status.get(x) == if announced.spreads_to(x) && !is_started(
            announced.unit_status,
            x,
        ) {
            Some(UnitStatusView::UpdateStarted)
        } else {
            announced.unit_status.get(x)
        });
        if s.unit_status.get(x) == Some(UnitStatusView::UnloadStarted) {
            assert(s.unit_status.contains(x));
            assert(s.dirties(x));
        }
    }
    assert forall|x: UnitNameView| #[trigger] p.dirties(x) <==> (s.dirties(x) || s.spreads_to(x)) by {
        assert(dirtied.dirties(x) <==> (announced.dirties(x) || announced.spreads_to(x)));
    }
    assert forall|x: UnitNameView|
        #![trigger p.unit_status.get(x)]
        #![trigger p.jigs.live.get(x)]
        #![trigger p.tests.live.get(x)]
        #![trigger p.scenarios.live.get(x)]
        (p.unit_status.get(x) == if s.withdraws(x) {
            None
        } else if s.spreads_to(x) && !is_started(s.unit_status, x) {
            Some(UnitStatusView::UpdateStarted)
        } else {
            s.unit_status.get(x)
        }) && (p.jigs.live.get(x) == if s.withdraws(x) {
            None
        } else {
            s.jigs.live.get(x)
        }) && (p.tests.live.get(x) == if s.withdraws(x) {
            None
        } else {
            s.tests.live.get(x)
        }) && (p.scenarios.live.get(x) == if s.withdraws(x) {
            None
        } else {
            s.scenarios.live.get(x)
        }) by {
        assert(dirtied.unit_status.get(x) == if announced.spreads_to(x) && !is_started(
            announced.unit_status,
            x,
        ) {
            Some(UnitStatusView::UpdateStarted)
        } else {
            announced.unit_status.get(x)
        });
        assert(p.unit_status.get(x) == if dirtied.unloads(x) {
            None
        } else {
            dirtied.unit_status.get(x)
        });
        assert(p.jigs.live.get(x) == if dirtied.unloads(x) {
            None
        } else {
            dirtied.jigs.live.get(x)
        });
        assert(p.tests.live.get(x) == if dirtied.unloads(x) {
            None
        } else {
            dirtied.tests.live.get(x)
        });
        assert(p.scenarios.live.get(x) == if dirtied.unloads(x) {
            None
        } else {
            dirtied.scenarios.live.get(x)
        });
    }
}

impl LibraryView {
    /// Whether the next rescan unloads the jig, test or scenario `name`
    /// because its description was withdrawn.
    pub open spec fn withdraws(self, name: UnitNameView) -> bool {
        name.kind != UnitKind::Interface && self.unit_status.get(name) == Some(
            UnitStatusView::UnloadStarted,
        )
    }
}

/// Dirt spreads alike in two libraries with the same descriptions, the same
/// loaded scenarios and the same dirty jigs and tests.
pub proof fn lemma_same_spreading(a: LibraryView, b: LibraryView, x: UnitNameView)
    requires
        a.jigs.dirty == b.jigs.dirty,
        forall|y: UnitNameView| #[trigger] a.tests.dirty.contains(y) == b.tests.dirty.contains(y),
        a.scenarios.live == b.scenarios.live,
        forall|y: UnitNameView| #[trigger]
            a.tests.descriptions.get(y) == b.tests.descriptions.get(y),
        forall|y: UnitNameView| #[trigger]
            a.scenarios.descriptions.get(y) == b.scenarios.descriptions.get(y),
        forall|y: UnitNameView| #[trigger]
            a.interfaces.descriptions.get(y) == b.interfaces.descriptions.get(y),
    ensures
        a.jig_spreads_to(x) == b.jig_spreads_to(x),
        a.test_spreads_to(x) == b.test_spreads_to(x),
        a.spreads_to(x) == b.spreads_to(x),
{
    assert forall|y: UnitNameView| a.jig_spreads_to(y) == b.jig_spreads_to(y) by {
        assert(a.tests.descriptions.get(y) == b.tests.descriptions.get(y));
        assert(a.scenarios.descriptions.get(y) == b.scenarios.descriptions.get(y));
        assert(a.interfaces.descriptions.get(y) == b.interfaces.descriptions.get(y));
    }
    let uses = a.scenarios.live.entries[x].tests;
    if a.test_spreads_to(x) {
        let test = choose|test: UnitNameView|
            #![trigger uses.contains(test)]
            uses.contains(test) && (a.tests.dirty.contains(test) || a.jig_spreads_to(test)
                && a.tests.descriptions.contains(test));
        assert(a.tests.descriptions.get(test) == b.tests.descriptions.get(test));
        assert(uses.contains(test) && (b.tests.dirty.contains(test) || b.jig_spreads_to(test)
            && b.tests.descriptions.contains(test)));
    }
    if b.test_spreads_to(x) {
        let test = choose|test: UnitNameView|
            #![trigger uses.contains(test)]
            uses.contains(test) && (b.tests.dirty.contains(test) || b.jig_spreads_to(test)
                && b.tests.descriptions.contains(test));
        assert(a.tests.descriptions.get(test) == b.tests.descriptions.get(test));
        assert(uses.contains(test) && (a.tests.dirty.contains(test) || a.jig_spreads_to(test)
            && a.tests.descriptions.contains(test)));
    }
}

/// A jig whose description comes in while a test is described that names
/// it: after the next rescan, however its requests are answered, the jig is
/// loaded as described, and the test is loaded anew as its description
/// says; the subscribers hear that the test was selected.
pub proof fn law_jig_upsert_reloads_test(
    s: LibraryView,
    jig: JigView,
    test: UnitNameView,
    replies: Seq<ReplyView>,
)
    requires
        s.wf(),
        s.progress is Idle,
        jig.id.kind == UnitKind::Jig,
        s.tests.descriptions.contains(test),
        s.tests.descriptions.entries[test].jigs.contains(jig.id),
        after_replies(s.update_jig_description(jig), replies).1 is Finished,
    ensures
        ({
            let t = after_replies(s.update_jig_description(jig), replies).0;
            &&& t.jigs.live.get(jig.id) == Some(jig)
            &&& t.tests.live.get(test) == Some(s.tests.descriptions.entries[test])
            &&& heard(
                s.broadcaster,
                seq![
                    count_event(
                        UnitKind::Jig,
                        s.update_jig_description(jig).jigs.descriptions.order.len(),
                    ),
                ],
                t.broadcaster,
                Some(UnitEventView::Status(test, UnitStatusView::Selected)),
            )
        }),
{
    let one = s.update_jig_description(jig);
    s.lemma_update_jig_description(jig);
    lemma_run(one, replies);
    lemma_spread_pointwise(one);
    let p = spread(one);
    let t = after_replies(one, replies).0;
    let described = s.tests.descriptions.entries[test];
    assert(s.tests.holds(test));
    assert(test.kind == UnitKind::Test);
    assert(s.describes(test));
    assert(s.unit_status.get(test) != Some(UnitStatusView::UnloadStarted));
    lemma_table_order(one.jigs.dirty, jig.id);
    assert(one.jigs.dirty.order.contains(jig.id));
    let k = choose|k: int| 0 <= k < one.jigs.dirty.order.len() && one.jigs.dirty.order[k] == jig.id;
    assert(described.jigs.contains(one.jigs.dirty.order[k]));
    assert(touches(described.jigs, one.jigs.dirty.order));
    assert(one.jig_spreads_to(test));
    assert(one.spreads_to(test));
    assert(p.dirties(test) <==> (one.dirties(test) || one.spreads_to(test)));
    assert(p.unit_status.get(test) == if one.withdraws(test) {
        None
    } else if one.spreads_to(test) && !is_started(one.unit_status, test) {
        Some(UnitStatusView::UpdateStarted)
    } else {
        one.unit_status.get(test)
    });
    assert(asks_load(p.unit_status, test));
    assert(p.dirties(jig.id) <==> (one.dirties(jig.id) || one.spreads_to(jig.id)));
    assert(p.unit_status.get(jig.id) == if one.withdraws(jig.id) {
        None
    } else if one.spreads_to(jig.id) && !is_started(one.unit_status, jig.id) {
        Some(UnitStatusView::UpdateStarted)
    } else {
        one.unit_status.get(jig.id)
    });
    assert(asks_load(p.unit_status, jig.id));
    assert(t.jigs.live.get(jig.id) == p.jig_after(jig.id));
    assert(t.jigs.live.contains(jig.id));
    let i = choose|i: int| 0 <= i < described.jigs.len() && described.jigs[i] == jig.id;
    assert(t.jigs.live.contains(described.jigs[i]));
    assert(compatible(described.jigs, t.jigs.live));
    assert(t.tests.live.get(test) == p.test_after(test, t.jigs.live));
    let selected = UnitEventView::Status(test, UnitStatusView::Selected);
    assert(selected_event(test) == selected && p.loads_test(test, t.jigs.live));
    assert(selected_tests(p, t).contains(selected));
    lemma_heard(
        s.broadcaster,
        seq![count_event(UnitKind::Jig, one.jigs.descriptions.order.len())],
        p.broadcaster,
        t.broadcaster,
        selected_tests(p, t),
        Some(selected),
    );
}

/// Every test, scenario and interface that is loaded at the end of a rescan
/// either has a jig (it names none, or one that it names is loaded) or is
/// what was loaded under its name before the rescan: the rescan loads no
/// unit without a jig.
pub proof fn law_rescan_loads_only_with_a_jig(s: LibraryView, replies: Seq<ReplyView>, x: UnitNameView)
    requires
        s.wf(),
        s.progress is Idle,
        after_replies(s, replies).1 is Finished,
    ensures
        ({
            let t = after_replies(s, replies).0;
            &&& t.tests.live.contains(x) ==> compatible(t.tests.live.entries[x].jigs, t.jigs.live)
                || t.tests.live.get(x) == s.tests.live.get(x)
            &&& t.scenarios.live.contains(x) ==> compatible(
                t.scenarios.live.entries[x].jigs,
                t.jigs.live,
            ) || t.scenarios.live.get(x) == s.scenarios.live.get(x)
            &&& t.interfaces.live.contains(x) ==> compatible(
                t.interfaces.live.entries[x].jigs,
                t.jigs.live,
            ) || t.interfaces.live.get(x) == s.interfaces.live.get(x)
        }),
{
    lemma_run(s, replies);
    lemma_spread_pointwise(s);
    let p = spread(s);
    let t = after_replies(s, replies).0;
    assert(t.tests.live.get(x) == p.test_after(x, t.jigs.live));
    assert(t.scenarios.live.get(x) == p.scenario_after(x, t.jigs.live));
    assert(interface_done(p, t, x));
    assert(p.tests.live.get(x) == if s.withdraws(x) {
        None
    } else {
        s.tests.live.get(x)
    });
    assert(p.scenarios.live.get(x) == if s.withdraws(x) {
        None
    } else {
        s.scenarios.live.get(x)
    });
}

/// Whether every loaded test, scenario and interface has a jig: it names
/// none, or one that it names is loaded.
pub open spec fn all_have_a_jig(s: LibraryView) -> bool {
    &&& forall|x: UnitNameView| #[trigger]
        s.tests.live.contains(x) ==> compatible(s.tests.live.entries[x].jigs, s.jigs.live)
    &&& forall|x: UnitNameView| #[trigger]
        s.scenarios.live.contains(x) ==> compatible(s.scenarios.live.entries[x].jigs, s.jigs.live)
    &&& forall|x: UnitNameView| #[trigger]
        s.interfaces.live.contains(x) ==> compatible(
            s.interfaces.live.entries[x].jigs,
            s.jigs.live,
        )
}

/// A unit that has a jig among some loaded jigs has one among more.
pub proof fn lemma_compatible_more(jigs: Seq<UnitNameView>, fewer: TableView<JigView>, more: TableView<JigView>)
    requires
        compatible(jigs, fewer),
        forall|x: UnitNameView| #[trigger] fewer.contains(x) ==> more.contains(x),
    ensures
        compatible(jigs, more),
{
    if jigs.len() > 0 {
        let i = choose|i: int| 0 <= i < jigs.len() && fewer.contains(#[trigger] jigs[i]);
        assert(more.contains(jigs[i]));
    }
}

/// As long as no rescan unloads a jig, every loaded test, scenario and
/// interface has a jig: if that holds before a rescan in which no jig is
/// marked for unloading, it holds at the end of the rescan, however the
/// requests are answered.
pub proof fn law_units_keep_a_jig(s: LibraryView, replies: Seq<ReplyView>)
    requires
        s.wf(),
        s.progress is Idle,
        all_have_a_jig(s),
        forall|jig: UnitNameView|
            jig.kind == UnitKind::Jig ==> #[trigger] s.unit_status.get(jig) != Some(
                UnitStatusView::UnloadStarted,
            ),
        after_replies(s, replies).1 is Finished,
    ensures
        all_have_a_jig(after_replies(s, replies).0),
{
    lemma_run(s, replies);
    lemma_spread_pointwise(s);
    let p = spread(s);
    let t = after_replies(s, replies).0;
    assert forall|x: UnitNameView| #[trigger] s.jigs.live.contains(x) implies t.jigs.live.contains(
        x,
    ) by {
        assert(s.jigs.holds(x));
        assert(s.unit_status.get(x) != Some(UnitStatusView::UnloadStarted));
        assert(p.jigs.live.get(x) == if s.withdraws(x) {
            None
        } else {
            s.jigs.live.get(x)
        });
        assert(t.jigs.live.get(x) == p.jig_after(x));
    }
    assert forall|x: UnitNameView| #[trigger] t.tests.live.contains(x) implies compatible(
        t.tests.live.entries[x].jigs,
        t.jigs.live,
    ) by {
        law_rescan_loads_only_with_a_jig(s, replies, x);
        if t.tests.live.get(x) == s.tests.live.get(x) {
            assert(s.tests.live.contains(x));
            lemma_compatible_more(s.tests.live.entries[x].jigs, s.jigs.live, t.jigs.live);
        }
    }
    assert forall|x: UnitNameView| #[trigger] t.scenarios.live.contains(x) implies compatible(
        t.scenarios.live.entries[x].jigs,
        t.jigs.live,
    ) by {
        law_rescan_loads_only_with_a_jig(s, replies, x);
        if t.scenarios.live.get(x) == s.scenarios.live.get(x) {
            assert(s.scenarios.live.contains(x));
            lemma_compatible_more(s.scenarios.live.entries[x].jigs, s.jigs.live, t.jigs.live);
        }
    }
    assert forall|x: UnitNameView| #[trigger] t.interfaces.live.contains(x) implies compatible(
        t.interfaces.live.entries[x].jigs,
        t.jigs.live,
    ) by {
        law_rescan_loads_only_with_a_jig(s, replies, x);
        if t.interfaces.live.get(x) == s.interfaces.live.get(x) {
            assert(s.interfaces.live.contains(x));
            lemma_compatible_more(s.interfaces.live.entries[x].jigs, s.jigs.live, t.jigs.live);
        }
    }
}

/// Whether a rescan treats two libraries alike: they have the same dirty
/// names and the same loaded units, their descriptions say the same, and
/// every name has the same label in both or a label that asks for loading in
/// both. The order of the descriptions and the subscribers' queues are left
/// out.
pub open spec fn alike(a: LibraryView, b: LibraryView) -> bool {
    &&& a.jigs.dirty == b.jigs.dirty
    &&& a.tests.dirty == b.tests.dirty
    &&& a.scenarios.dirty == b.scenarios.dirty
    &&& a.interfaces.dirty == b.interfaces.dirty
    &&& a.jigs.live == b.jigs.live
    &&& a.tests.live == b.tests.live
    &&& a.scenarios.live == b.scenarios.live
    &&& a.interfaces.live == b.interfaces.live
    &&& forall|x: UnitNameView| #[trigger] a.jigs.descriptions.get(x) == b.jigs.descriptions.get(x)
    &&& forall|x: UnitNameView| #[trigger] a.tests.descriptions.get(x) == b.tests.descriptions.get(x)
    &&& forall|x: UnitNameView| #[trigger]
        a.scenarios.descriptions.get(x) == b.scenarios.descriptions.get(x)
    &&& forall|x: UnitNameView| #[trigger]
        a.interfaces.descriptions.get(x) == b.interfaces.descriptions.get(x)
    &&& forall|x: UnitNameView| #[trigger]
        a.unit_status.get(x) == b.unit_status.get(x) || (asks_load(a.unit_status, x) && asks_load(
            b.unit_status,
            x,
        ))
}

/// Rescans of two libraries that are alike load the same jigs, tests and
/// scenarios, however their requests are answered. (Which interfaces are
/// loaded in the end depends on how starting them goes; see
/// `lemma_alike_answered`.)
pub proof fn lemma_alike_rescans(
    a: LibraryView,
    b: LibraryView,
    replies_a: Seq<ReplyView>,
    replies_b: Seq<ReplyView>,
    x: UnitNameView,
)
    requires
        a.wf(),
        a.progress is Idle,
        b.wf(),
        b.progress is Idle,
        alike(a, b),
        after_replies(a, replies_a).1 is Finished,
        after_replies(b, replies_b).1 is Finished,
    ensures
        ({
            let ta = after_replies(a, replies_a).0;
            let tb = after_replies(b, replies_b).0;
            &&& ta.jigs.live.get(x) == tb.jigs.live.get(x)
            &&& ta.tests.live.get(x) == tb.tests.live.get(x)
            &&& ta.scenarios.live.get(x) == tb.scenarios.live.get(x)
        }),
{
    lemma_run(a, replies_a);
    lemma_run(b, replies_b);
    lemma_spread_pointwise(a);
    lemma_spread_pointwise(b);
    let pa = spread(a);
    let pb = spread(b);
    let ta = after_replies(a, replies_a).0;
    let tb = after_replies(b, replies_b).0;
    assert forall|y: UnitNameView|
        pa.jig_after(y) == pb.jig_after(y) && pa.dirties(y) == pb.dirties(y) && asks_load(
            pa.unit_status,
            y,
        ) == asks_load(pb.unit_status, y) && pa.tests.live.get(y) == pb.tests.live.get(y)
            && pa.scenarios.live.get(y) == pb.scenarios.live.get(y) by {
        lemma_same_spreading(a, b, y);
        assert(a.unit_status.get(y) == b.unit_status.get(y) || (asks_load(a.unit_status, y)
            && asks_load(b.unit_status, y)));
        assert(pa.dirties(y) <==> (a.dirties(y) || a.spreads_to(y)));
        assert(pb.dirties(y) <==> (b.dirties(y) || b.spreads_to(y)));
        assert(pa.unit_status.get(y) == if a.withdraws(y) {
            None
        } else if a.spreads_to(y) && !is_started(a.unit_status, y) {
            Some(UnitStatusView::UpdateStarted)
        } else {
            a.unit_status.get(y)
        });
        assert(pb.unit_status.get(y) == if b.withdraws(y) {
            None
        } else if b.spreads_to(y) && !is_started(b.unit_status, y) {
            Some(UnitStatusView::UpdateStarted)
        } else {
            b.unit_status.get(y)
        });
        assert(pa.jigs.live.get(y) == if a.withdraws(y) {
            None
        } else {
            a.jigs.live.get(y)
        });
        assert(pb.jigs.live.get(y) == if b.withdraws(y) {
            None
        } else {
            b.jigs.live.get(y)
        });
        assert(pa.tests.live.get(y) == if a.withdraws(y) {
            None
        } else {
            a.tests.live.get(y)
        });
        assert(pb.tests.live.get(y) == if b.withdraws(y) {
            None
        } else {
            b.tests.live.get(y)
        });
        assert(pa.scenarios.live.get(y) == if a.withdraws(y) {
            None
        } else {
            a.scenarios.live.get(y)
        });
        assert(pb.scenarios.live.get(y) == if b.withdraws(y) {
            None
        } else {
            b.scenarios.live.get(y)
        });
        assert(a.jigs.descriptions.get(y) == b.jigs.descriptions.get(y));
        assert(pa.jigs.dirty.contains(y) == pb.jigs.dirty.contains(y));
    }
    assert forall|y: UnitNameView| #[trigger] ta.jigs.live.get(y) == tb.jigs.live.get(y) by {
        assert(ta.jigs.live.get(y) == pa.jig_after(y));
        assert(tb.jigs.live.get(y) == pb.jig_after(y));
        assert(pa.jig_after(y) == pb.jig_after(y));
    }
    assert(ta.tests.live.get(x) == pa.test_after(x, ta.jigs.live));
    assert(tb.tests.live.get(x) == pb.test_after(x, tb.jigs.live));
    assert(ta.scenarios.live.get(x) == pa.scenario_after(x, ta.jigs.live));
    assert(tb.scenarios.live.get(x) == pb.scenario_after(x, tb.jigs.live));
    assert(a.tests.descriptions.get(x) == b.tests.descriptions.get(x));
    assert(a.scenarios.descriptions.get(x) == b.scenarios.descriptions.get(x));
    assert(pa.dirties(x) == pb.dirties(x));
    assert(asks_load(pa.unit_status, x) == asks_load(pb.unit_status, x));
    assert(pa.tests.live.get(x) == pb.tests.live.get(x));
    assert(pa.scenarios.live.get(x) == pb.scenarios.live.get(x));
    if a.tests.descriptions.contains(x) {
        assert(a.tests.holds(x));
        assert(b.tests.descriptions.contains(x));
        assert(b.tests.holds(x));
        lemma_compatible_same(a.tests.descriptions.entries[x].jigs, ta.jigs.live, tb.jigs.live);
    }
    if a.scenarios.descriptions.contains(x) {
        assert(a.scenarios.holds(x));
        assert(b.scenarios.descriptions.contains(x));
        assert(b.scenarios.holds(x));
        lemma_compatible_same(a.scenarios.descriptions.entries[x].jigs, ta.jigs.live, tb.jigs.live);
    }
    if pa.tests.dirty.contains(x) {
        assert(pa.tests.holds(x));
    }
    if pb.tests.dirty.contains(x) {
        assert(pb.tests.holds(x));
    }
    if pa.scenarios.dirty.contains(x) {
        assert(pa.scenarios.holds(x));
    }
    if pb.scenarios.dirty.contains(x) {
        assert(pb.scenarios.holds(x));
    }
}

/// To withdraw the description of a test and bring in a description of it
/// does to the loaded jigs, tests and scenarios what bringing in the
/// description alone does: after the next rescan they are the same, however
/// the requests of the two rescans are answered.
pub proof fn law_remove_then_upsert_test(
    s: LibraryView,
    d: TestView,
    replies_both: Seq<ReplyView>,
    replies_one: Seq<ReplyView>,
    x: UnitNameView,
)
    requires
        s.wf(),
        s.progress is Idle,
        d.id.kind == UnitKind::Test,
        after_replies(s.remove_test(d.id).update_test_description(d), replies_both).1 is Finished,
        after_replies(s.update_test_description(d), replies_one).1 is Finished,
    ensures
        ({
            let both = after_replies(s.remove_test(d.id).update_test_description(d), replies_both).0;
            let one = after_replies(s.update_test_description(d), replies_one).0;
            &&& both.jigs.live.get(x) == one.jigs.live.get(x)
            &&& both.tests.live.get(x) == one.tests.live.get(x)
            &&& both.scenarios.live.get(x) == one.scenarios.live.get(x)
        }),
{
    let removed = s.remove_test(d.id);
    let a = removed.update_test_description(d);
    let b = s.update_test_description(d);
    s.lemma_remove_test(d.id);
    removed.lemma_update_test_description(d);
    s.lemma_update_test_description(d);
    assert(a.tests.dirty =~= b.tests.dirty);
    assert forall|y: UnitNameView| #[trigger]
        a.tests.descriptions.get(y) == b.tests.descriptions.get(y) by {}
    assert(alike(a, b));
    lemma_alike_rescans(a, b, replies_both, replies_one, x);
}

/// See `law_remove_then_upsert_test`.
pub proof fn law_remove_then_upsert_jig(
    s: LibraryView,
    d: JigView,
    replies_both: Seq<ReplyView>,
    replies_one: Seq<ReplyView>,
    x: UnitNameView,
)
    requires
        s.wf(),
        s.progress is Idle,
        d.id.kind == UnitKind::Jig,
        after_replies(s.remove_jig(d.id).update_jig_description(d), replies_both).1 is Finished,
        after_replies(s.update_jig_description(d), replies_one).1 is Finished,
    ensures
        ({
            let both = after_replies(s.remove_jig(d.id).update_jig_description(d), replies_both).0;
            let one = after_replies(s.update_jig_description(d), replies_one).0;
            &&& both.jigs.live.get(x) == one.jigs.live.get(x)
            &&& both.tests.live.get(x) == one.tests.live.get(x)
            &&& both.scenarios.live.get(x) == one.scenarios.live.get(x)
        }),
{
    let removed = s.remove_jig(d.id);
    let a = removed.update_jig_description(d);
    let b = s.update_jig_description(d);
    s.lemma_remove_jig(d.id);
    removed.lemma_update_jig_description(d);
    s.lemma_update_jig_description(d);
    assert(a.jigs.dirty =~= b.jigs.dirty);
    assert forall|y: UnitNameView| #[trigger]
        a.jigs.descriptions.get(y) == b.jigs.descriptions.get(y) by {}
    assert(alike(a, b));
    lemma_alike_rescans(a, b, replies_both, replies_one, x);
}

/// See `law_remove_then_upsert_test`.
pub proof fn law_remove_then_upsert_scenario(
    s: LibraryView,
    d: ScenarioView,
    replies_both: Seq<ReplyView>,
    replies_one: Seq<ReplyView>,
    x: UnitNameView,
)
    requires
        s.wf(),
        s.progress is Idle,
        d.id.kind == UnitKind::Scenario,
        after_replies(s.remove_scenario(d.id).update_scenario_description(d), replies_both).1
            is Finished,
        after_replies(s.update_scenario_description(d), replies_one).1 is Finished,
    ensures
        ({
            let both = after_replies(
                s.remove_scenario(d.id).update_scenario_description(d),
                replies_both,
            ).0;
            let one = after_replies(s.update_scenario_description(d), replies_one).0;
            &&& both.jigs.live.get(x) == one.jigs.live.get(x)
            &&& both.tests.live.get(x) == one.tests.live.get(x)
            &&& both.scenarios.live.get(x) == one.scenarios.live.get(x)
        }),
{
    let removed = s.remove_scenario(d.id);
    let a = removed.update_scenario_description(d);
    let b = s.update_scenario_description(d);
    s.lemma_remove_scenario(d.id);
    removed.lemma_update_scenario_description(d);
    s.lemma_update_scenario_description(d);
    assert(a.scenarios.dirty =~= b.scenarios.dirty);
    assert forall|y: UnitNameView| #[trigger]
        a.scenarios.descriptions.get(y) == b.scenarios.descriptions.get(y) by {}
    assert(alike(a, b));
    lemma_alike_rescans(a, b, replies_both, replies_one, x);
}

/// See `law_remove_then_upsert_test`. Which interfaces are loaded after the
/// two rescans depends on how starting them goes; see
/// `law_remove_then_upsert_interface_loads_the_same` for them.
pub proof fn law_remove_then_upsert_interface(
    s: LibraryView,
    d: InterfaceDescriptionView,
    replies_both: Seq<ReplyView>,
    replies_one: Seq<ReplyView>,
    x: UnitNameView,
)
    requires
        s.wf(),
        s.progress is Idle,
        d.id.kind == UnitKind::Interface,
        after_replies(s.remove_interface(d.id).update_interface_description(d), replies_both).1
            is Finished,
        after_replies(s.update_interface_description(d), replies_one).1 is Finished,
    ensures
        ({
            let both = after_replies(
                s.remove_interface(d.id).update_interface_description(d),
                replies_both,
            ).0;
            let one = after_replies(s.update_interface_description(d), replies_one).0;
            &&& both.jigs.live.get(x) == one.jigs.live.get(x)
            &&& both.tests.live.get(x) == one.tests.live.get(x)
            &&& both.scenarios.live.get(x) == one.scenarios.live.get(x)
        }),
{
    let removed = s.remove_interface(d.id);
    let a = removed.update_interface_description(d);
    let b = s.update_interface_description(d);
    s.lemma_remove_interface(d.id);
    removed.lemma_update_interface_description(d);
    s.lemma_update_interface_description(d);
    assert(a.interfaces.dirty =~= b.interfaces.dirty);
    assert forall|y: UnitNameView| #[trigger]
        a.interfaces.descriptions.get(y) == b.interfaces.descriptions.get(y) by {}
    assert(alike(a, b));
    lemma_alike_rescans(a, b, replies_both, replies_one, x);
}

/// The state and the request after a rescan of `s` whose first `n` requests
/// were answered as `answers` says.
pub open spec fn after_answers(s: LibraryView, answers: Answers, n: nat) -> (LibraryView, RequestView)
    decreases n,
{
    if n == 0 {
        s.rescan()
    } else {
        let before = after_answers(s, answers, (n - 1) as nat);
        before.0.resume(answer(answers, before.1))
    }
}

/// The first `n` answers that a rescan of `s` gets where `answers` says how
/// stopping and starting goes.
pub open spec fn answers_given(s: LibraryView, answers: Answers, n: nat) -> Seq<ReplyView>
    decreases n,
{
    if n == 0 {
        Seq::empty()
    } else {
        answers_given(s, answers, (n - 1) as nat).push(
            answer(answers, after_answers(s, answers, (n - 1) as nat).1),
        )
    }
}

/// A rescan that is answered as `answers` says is a rescan that is answered
/// by the answers given.
pub proof fn lemma_answers_given(s: LibraryView, answers: Answers, n: nat)
    ensures
        after_replies(s, answers_given(s, answers, n)) == after_answers(s, answers, n),
    decreases n,
{
    if n > 0 {
        lemma_answers_given(s, answers, (n - 1) as nat);
        let given = answers_given(s, answers, n);
        assert(given.drop_last() =~= answers_given(s, answers, (n - 1) as nat));
    }
}

/// A rescan that is answered as `answers` says goes on soundly, and the
/// interfaces that it has dealt with are loaded exactly where it got them
/// started.
pub proof fn lemma_answered_run(s: LibraryView, answers: Answers, n: nat)
    requires
        s.wf(),
        s.progress is Idle,
    ensures
        ({
            let (t, request) = after_answers(s, answers, n);
            &&& t.inv()
            &&& stage(spread(s), t)
            &&& request == t.pending()
            &&& answered(spread(s), t, answers)
        }),
    decreases n,
{
    lemma_answers_given(s, answers, n);
    lemma_run(s, answers_given(s, answers, n));
    lemma_spread(s);
    if n == 0 {
        lemma_rescan(s, answers);
    } else {
        lemma_answered_run(s, answers, (n - 1) as nat);
        let before = after_answers(s, answers, (n - 1) as nat);
        if !(before.0.progress is Idle) {
            lemma_resume(spread(s), before.0, answer(answers, before.1), answers);
        }
    }
}

/// The interface under `x` at the end of the rescan that came to `p`,
/// `loaded` being the loaded jigs then: one marked for unloading is gone;
/// one that the rescan tried to load is the one freshly made from its
/// description if it is compatible and starting it went well, and gone if
/// not; any other is as it was.
pub open spec fn interface_after(
    p: LibraryView,
    x: UnitNameView,
    loaded: TableView<JigView>,
    answers: Answers,
) -> Option<InterfaceView> {
    if p.unloads_interface(x) {
        None
    } else if p.reloads_interface(x) {
        if starts(p, x, loaded, answers) {
            p.fresh_interface(x, loaded)
        } else {
            None
        }
    } else {
        p.interfaces.live.get(x)
    }
}

/// Which interfaces are loaded at the end of a rescan is decided by the
/// state in which the rescan began and by how starting the interfaces went.
pub proof fn law_interfaces_are_loaded_as_answered(
    s: LibraryView,
    answers: Answers,
    n: nat,
    x: UnitNameView,
)
    requires
        s.wf(),
        s.progress is Idle,
        after_answers(s, answers, n).1 is Finished,
    ensures
        ({
            let t = after_answers(s, answers, n).0;
            t.interfaces.live.get(x) == interface_after(spread(s), x, t.jigs.live, answers)
        }),
{
    lemma_answered_run(s, answers, n);
    lemma_spread(s);
    let p = spread(s);
    let t = after_answers(s, answers, n).0;
    assert(interface_done(p, t, x));
    if p.reloads_interface(x) {
        lemma_table_order(p.interfaces.dirty, x);
        assert(p.interfaces.dirty.order.take(p.interfaces.dirty.order.len() as int).contains(x));
    }
}

/// Rescans of two libraries that are alike, answered by a caller for whom
/// stopping and starting an interface goes the same way in both, load the
/// same units of every kind.
pub proof fn lemma_alike_answered(
    a: LibraryView,
    b: LibraryView,
    answers: Answers,
    n_a: nat,
    n_b: nat,
    x: UnitNameView,
)
    requires
        a.wf(),
        a.progress is Idle,
        b.wf(),
        b.progress is Idle,
        alike(a, b),
        after_answers(a, answers, n_a).1 is Finished,
        after_answers(b, answers, n_b).1 is Finished,
    ensures
        ({
            let ta = after_answers(a, answers, n_a).0;
            let tb = after_answers(b, answers, n_b).0;
            &&& ta.jigs.live.get(x) == tb.jigs.live.get(x)
            &&& ta.tests.live.get(x) == tb.tests.live.get(x)
            &&& ta.scenarios.live.get(x) == tb.scenarios.live.get(x)
            &&& ta.interfaces.live.get(x) == tb.interfaces.live.get(x)
        }),
{
    let given_a = answers_given(a, answers, n_a);
    let given_b = answers_given(b, answers, n_b);
    lemma_answers_given(a, answers, n_a);
    lemma_answers_given(b, answers, n_b);
    lemma_alike_rescans(a, b, given_a, given_b, x);
    law_interfaces_are_loaded_as_answered(a, answers, n_a, x);
    law_interfaces_are_loaded_as_answered(b, answers, n_b, x);
    lemma_spread(a);
    lemma_spread(b);
    lemma_spread_pointwise(a);
    lemma_spread_pointwise(b);
    let pa = spread(a);
    let pb = spread(b);
    let ta = after_answers(a, answers, n_a).0;
    let tb = after_answers(b, answers, n_b).0;
    assert forall|y: UnitNameView| #[trigger] ta.jigs.live.get(y) == tb.jigs.live.get(y) by {
        lemma_alike_rescans(a, b, given_a, given_b, y);
    }
    lemma_same_spreading(a, b, x);
    assert(a.unit_status.get(x) == b.unit_status.get(x) || (asks_load(a.unit_status, x)
        && asks_load(b.unit_status, x)));
    assert(pa.dirties(x) <==> (a.dirties(x) || a.spreads_to(x)));
    assert(pb.dirties(x) <==> (b.dirties(x) || b.spreads_to(x)));
    assert(pa.unit_status.get(x) == if a.withdraws(x) {
        None
    } else if a.spreads_to(x) && !is_started(a.unit_status, x) {
        Some(UnitStatusView::UpdateStarted)
    } else {
        a.unit_status.get(x)
    });
    assert(pb.unit_status.get(x) == if b.withdraws(x) {
        None
    } else if b.spreads_to(x) && !is_started(b.unit_status, x) {
        Some(UnitStatusView::UpdateStarted)
    } else {
        b.unit_status.get(x)
    });
    assert(a.interfaces.descriptions.get(x) == b.interfaces.descriptions.get(x));
    if pa.interfaces.dirty.contains(x) {
        assert(pa.interfaces.holds(x));
    }
    if pb.interfaces.dirty.contains(x) {
        assert(pb.interfaces.holds(x));
    }
    assert(pa.interfaces.dirty.contains(x) == pb.interfaces.dirty.contains(x));
    assert(pa.unloads_interface(x) == pb.unloads_interface(x));
    assert(pa.reloads_interface(x) == pb.reloads_interface(x));
    if pa.reloads_interface(x) {
        lemma_compatible_same(pa.interfaces.descriptions.entries[x].jigs, ta.jigs.live, tb.jigs.live);
    }
}

/// To withdraw the description of a test and bring in a description of it
/// does to the loaded units of every kind what bringing in the description
/// alone does, where stopping and starting an interface goes the same way
/// after both: after the next rescan the same units are loaded.
pub proof fn law_remove_then_upsert_test_loads_the_same(
    s: LibraryView,
    d: TestView,
    answers: Answers,
    n_both: nat,
    n_one: nat,
    x: UnitNameView,
)
    requires
        s.wf(),
        s.progress is Idle,
        d.id.kind == UnitKind::Test,
        after_answers(s.remove_test(d.id).update_test_description(d), answers, n_both).1
            is Finished,
        after_answers(s.update_test_description(d), answers, n_one).1 is Finished,
    ensures
        ({
            let both = after_answers(
                s.remove_test(d.id).update_test_description(d),
                answers,
                n_both,
            ).0;
            let one = after_answers(s.update_test_description(d), answers, n_one).0;
            &&& both.jigs.live.get(x) == one.jigs.live.get(x)
            &&& both.tests.live.get(x) == one.tests.live.get(x)
            &&& both.scenarios.live.get(x) == one.scenarios.live.get(x)
            &&& both.interfaces.live.get(x) == one.interfaces.live.get(x)
        }),
{
    let removed = s.remove_test(d.id);
    let a = removed.update_test_description(d);
    let b = s.update_test_description(d);
    s.lemma_remove_test(d.id);
    removed.lemma_update_test_description(d);
    s.lemma_update_test_description(d);
    assert(a.tests.dirty =~= b.tests.dirty);
    assert forall|y: UnitNameView| #[trigger]
        a.tests.descriptions.get(y) == b.tests.descriptions.get(y) by {}
    assert(alike(a, b));
    lemma_alike_answered(a, b, answers, n_both, n_one, x);
}

/// See `law_remove_then_upsert_test_loads_the_same`.
pub proof fn law_remove_then_upsert_jig_loads_the_same(
    s: LibraryView,
    d: JigView,
    answers: Answers,
    n_both: nat,
    n_one: nat,
    x: UnitNameView,
)
    requires
        s.wf(),
        s.progress is Idle,
        d.id.kind == UnitKind::Jig,
        after_answers(s.remove_jig(d.id).update_jig_description(d), answers, n_both).1 is Finished,
        after_answers(s.update_jig_description(d), answers, n_one).1 is Finished,
    ensures
        ({
            let both = after_answers(s.remove_jig(d.id).update_jig_description(d), answers, n_both).0;
            let one = after_answers(s.update_jig_description(d), answers, n_one).0;
            &&& both.jigs.live.get(x) == one.jigs.live.get(x)
            &&& both.tests.live.get(x) == one.tests.live.get(x)
            &&& both.scenarios.live.get(x) == one.scenarios.live.get(x)
            &&& both.interfaces.live.get(x) == one.interfaces.live.get(x)
        }),
{
    let removed = s.remove_jig(d.id);
    let a = removed.update_jig_description(d);
    let b = s.update_jig_description(d);
    s.lemma_remove_jig(d.id);
    removed.lemma_update_jig_description(d);
    s.lemma_update_jig_description(d);
    assert(a.jigs.dirty =~= b.jigs.dirty);
    assert forall|y: UnitNameView| #[trigger]
        a.jigs.descriptions.get(y) == b.jigs.descriptions.get(y) by {}
    assert(alike(a, b));
    lemma_alike_answered(a, b, answers, n_both, n_one, x);
}

/// See `law_remove_then_upsert_test_loads_the_same`.
pub proof fn law_remove_then_upsert_scenario_loads_the_same(
    s: LibraryView,
    d: ScenarioView,
    answers: Answers,
    n_both: nat,
    n_one: nat,
    x: UnitNameView,
)
    requires
        s.wf(),
        s.progress is Idle,
        d.id.kind == UnitKind::Scenario,
        after_answers(s.remove_scenario(d.id).update_scenario_description(d), answers, n_both).1
            is Finished,
        after_answers(s.update_scenario_description(d), answers, n_one).1 is Finished,
    ensures
        ({
            let both = after_answers(
                s.remove_scenario(d.id).update_scenario_description(d),
                answers,
                n_both,
            ).0;
            let one = after_answers(s.update_scenario_description(d), answers, n_one).0;
            &&& both.jigs.live.get(x) == one.jigs.live.get(x)
            &&& both.tests.live.get(x) == one.tests.live.get(x)
            &&& both.scenarios.live.get(x) == one.scenarios.live.get(x)
            &&& both.interfaces.live.get(x) == one.interfaces.live.get(x)
        }),
{
    let removed = s.remove_scenario(d.id);
    let a = removed.update_scenario_description(d);
    let b = s.update_scenario_description(d);
    s.lemma_remove_scenario(d.id);
    removed.lemma_update_scenario_description(d);
    s.lemma_update_scenario_description(d);
    assert(a.scenarios.dirty =~= b.scenarios.dirty);
    assert forall|y: UnitNameView| #[trigger]
        a.scenarios.descriptions.get(y) == b.scenarios.descriptions.get(y) by {}
    assert(alike(a, b));
    lemma_alike_answered(a, b, answers, n_both, n_one, x);
}

/// See `law_remove_then_upsert_test_loads_the_same`. The two rescans may ask
/// for the interfaces in different orders; the same ones are loaded.
pub proof fn law_remove_then_upsert_interface_loads_the_same(
    s: LibraryView,
    d: InterfaceDescriptionView,
    answers: Answers,
    n_both: nat,
    n_one: nat,
    x: UnitNameView,
)
    requires
        s.wf(),
        s.progress is Idle,
        d.id.kind == UnitKind::Interface,
        after_answers(s.remove_interface(d.id).update_interface_description(d), answers, n_both).1
            is Finished,
        after_answers(s.update_interface_description(d), answers, n_one).1 is Finished,
    ensures
        ({
            let both = after_answers(
                s.remove_interface(d.id).update_interface_description(d),
                answers,
                n_both,
            ).0;
            let one = after_answers(s.update_interface_description(d), answers, n_one).0;
            &&& both.jigs.live.get(x) == one.jigs.live.get(x)
            &&& both.tests.live.get(x) == one.tests.live.get(x)
            &&& both.scenarios.live.get(x) == one.scenarios.live.get(x)
            &&& both.interfaces.live.get(x) == one.interfaces.live.get(x)
        }),
{
    let removed = s.remove_interface(d.id);
    let a = removed.update_interface_description(d);
    let b = s.update_interface_description(d);
    s.lemma_remove_interface(d.id);
    removed.lemma_update_interface_description(d);
    s.lemma_update_interface_description(d);
    assert(a.interfaces.dirty =~= b.interfaces.dirty);
    assert forall|y: UnitNameView| #[trigger]
        a.interfaces.descriptions.get(y) == b.interfaces.descriptions.get(y) by {}
    assert(alike(a, b));
    lemma_alike_answered(a, b, answers, n_both, n_one, x);
}

} // verus!
