//! Lifecycle events and the broadcaster that fans them out to subscribers.

use crate::unit::{UnitKind, UnitName, UnitNameView};
use vstd::prelude::*;
use vstd::string::*;

verus! {

/// The lifecycle label of a unit. The three `*Started` labels are what the
/// library keeps for a unit between a change and the next rescan; the others
/// are only ever broadcast.
#[derive(Debug, PartialEq, Eq)]
pub enum UnitStatus {
    LoadStarted,
    UpdateStarted,
    UnloadStarted,
    Selected,
    Deselected,
    Active,
    ActiveFailed(String),
    DeactivateSuccess(String),
    DeactivateFailure(String),
    Unloading,
    UnitIncompatible(String),
}

/// A `UnitStatus` with its texts as character sequences.
pub enum UnitStatusView {
    LoadStarted,
    UpdateStarted,
    UnloadStarted,
    Selected,
    Deselected,
    Active,
    ActiveFailed(Seq<char>),
    DeactivateSuccess(Seq<char>),
    DeactivateFailure(Seq<char>),
    Unloading,
    UnitIncompatible(Seq<char>),
}

impl View for UnitStatus {
    type V = UnitStatusView;

    open spec fn view(&self) -> UnitStatusView {
        match self {
            UnitStatus::LoadStarted => UnitStatusView::LoadStarted,
            UnitStatus::UpdateStarted => UnitStatusView::UpdateStarted,
            UnitStatus::UnloadStarted => UnitStatusView::UnloadStarted,
            UnitStatus::Selected => UnitStatusView::Selected,
            UnitStatus::Deselected => UnitStatusView::Deselected,
            UnitStatus::Active => UnitStatusView::Active,
            UnitStatus::ActiveFailed(reason) => UnitStatusView::ActiveFailed(reason@),
            UnitStatus::DeactivateSuccess(note) => UnitStatusView::DeactivateSuccess(note@),
            UnitStatus::DeactivateFailure(reason) => UnitStatusView::DeactivateFailure(reason@),
            UnitStatus::Unloading => UnitStatusView::Unloading,
            UnitStatus::UnitIncompatible(reason) => UnitStatusView::UnitIncompatible(reason@),
        }
    }
}

impl Clone for UnitStatus {
    fn clone(&self) -> (copy: Self)
        ensures
            copy == *self,
    {
        match self {
            UnitStatus::LoadStarted => UnitStatus::LoadStarted,
            UnitStatus::UpdateStarted => UnitStatus::UpdateStarted,
            UnitStatus::UnloadStarted => UnitStatus::UnloadStarted,
            UnitStatus::Selected => UnitStatus::Selected,
            UnitStatus::Deselected => UnitStatus::Deselected,
            UnitStatus::Active => UnitStatus::Active,
            UnitStatus::ActiveFailed(reason) => UnitStatus::ActiveFailed(reason.clone()),
            UnitStatus::DeactivateSuccess(note) => UnitStatus::DeactivateSuccess(note.clone()),
            UnitStatus::DeactivateFailure(reason) => UnitStatus::DeactivateFailure(reason.clone()),
            UnitStatus::Unloading => UnitStatus::Unloading,
            UnitStatus::UnitIncompatible(reason) => UnitStatus::UnitIncompatible(reason.clone()),
        }
    }
}

impl UnitStatusView {
    /// Whether the label asks the next rescan to load the unit.
    pub open spec fn is_load(self) -> bool {
        self is LoadStarted || self is UpdateStarted
    }

    /// Whether the label is one of the three that the library keeps.
    pub open spec fn is_started(self) -> bool {
        self is LoadStarted || self is UpdateStarted || self is UnloadStarted
    }
}

impl UnitStatus {
    pub fn asks_load(&self) -> (r: bool)
        ensures
            r == self@.is_load(),
    {
        match self {
            UnitStatus::LoadStarted => true,
            UnitStatus::UpdateStarted => true,
            _ => false,
        }
    }

    pub fn asks_unload(&self) -> (r: bool)
        ensures
            r == (self@ is UnloadStarted),
    {
        match self {
            UnitStatus::UnloadStarted => true,
            _ => false,
        }
    }

    pub fn started(&self) -> (r: bool)
        ensures
            r == self@.is_started(),
    {
        match self {
            UnitStatus::LoadStarted => true,
            UnitStatus::UpdateStarted => true,
            UnitStatus::UnloadStarted => true,
            _ => false,
        }
    }
}

/// A status that a named unit has reached.
#[derive(Debug, PartialEq, Eq)]
pub struct UnitStatusEvent {
    pub name: UnitName,
    pub status: UnitStatus,
}

impl UnitStatusEvent {
    pub fn new_selected(name: &UnitName) -> (event: Self)
        ensures
            event.name == *name,
            event.status == UnitStatus::Selected,
    {
        UnitStatusEvent { name: name.clone(), status: UnitStatus::Selected }
    }

    pub fn new_deselected(name: &UnitName) -> (event: Self)
        ensures
            event.name == *name,
            event.status == UnitStatus::Deselected,
    {
        UnitStatusEvent { name: name.clone(), status: UnitStatus::Deselected }
    }

    pub fn new_active(name: &UnitName) -> (event: Self)
        ensures
            event.name == *name,
            event.status == UnitStatus::Active,
    {
        UnitStatusEvent { name: name.clone(), status: UnitStatus::Active }
    }

    pub fn new_active_failed(name: &UnitName, reason: String) -> (event: Self)
        ensures
            event.name == *name,
            event.status == UnitStatus::ActiveFailed(reason),
    {
        UnitStatusEvent { name: name.clone(), status: UnitStatus::ActiveFailed(reason) }
    }

    pub fn new_deactivate_success(name: &UnitName, note: String) -> (event: Self)
        ensures
            event.name == *name,
            event.status == UnitStatus::DeactivateSuccess(note),
    {
        UnitStatusEvent { name: name.clone(), status: UnitStatus::DeactivateSuccess(note) }
    }

    pub fn new_deactivate_failure(name: &UnitName, reason: String) -> (event: Self)
        ensures
            event.name == *name,
            event.status == UnitStatus::DeactivateFailure(reason),
    {
        UnitStatusEvent { name: name.clone(), status: UnitStatus::DeactivateFailure(reason) }
    }

    pub fn new_unloading(name: &UnitName) -> (event: Self)
        ensures
            event.name == *name,
            event.status == UnitStatus::Unloading,
    {
        UnitStatusEvent { name: name.clone(), status: UnitStatus::Unloading }
    }

    pub fn new_unit_incompatible(name: &UnitName, reason: String) -> (event: Self)
        ensures
            event.name == *name,
            event.status == UnitStatus::UnitIncompatible(reason),
    {
        UnitStatusEvent { name: name.clone(), status: UnitStatus::UnitIncompatible(reason) }
    }
}

/// A remark about all units of one kind.
#[derive(Debug, PartialEq, Eq)]
pub struct UnitCategoryEvent {
    pub kind: UnitKind,
    pub status: String,
}

impl UnitCategoryEvent {
    pub fn new(kind: UnitKind, status: &str) -> (event: Self)
        ensures
            event.kind == kind,
            event.status@ == status@,
    {
        UnitCategoryEvent { kind, status: status.to_owned() }
    }
}

/// What the broadcaster carries.
#[derive(Debug, PartialEq, Eq)]
pub enum UnitEvent {
    RescanStart,
    RescanFinish,
    Category(UnitCategoryEvent),
    Status(UnitStatusEvent),
}

/// A `UnitEvent` with its name and texts as mathematical values.
pub enum UnitEventView {
    RescanStart,
    RescanFinish,
    Category(UnitKind, Seq<char>),
    Status(UnitNameView, UnitStatusView),
}

impl View for UnitEvent {
    type V = UnitEventView;

    open spec fn view(&self) -> UnitEventView {
        match self {
            UnitEvent::RescanStart => UnitEventView::RescanStart,
            UnitEvent::RescanFinish => UnitEventView::RescanFinish,
            UnitEvent::Category(event) => UnitEventView::Category(event.kind, event.status@),
            UnitEvent::Status(event) => UnitEventView::Status(event.name@, event.status@),
        }
    }
}

impl Clone for UnitEvent {
    fn clone(&self) -> (copy: Self)
        ensures
            copy == *self,
    {
        match self {
            UnitEvent::RescanStart => UnitEvent::RescanStart,
            UnitEvent::RescanFinish => UnitEvent::RescanFinish,
            UnitEvent::Category(event) => UnitEvent::Category(
                UnitCategoryEvent { kind: event.kind, status: event.status.clone() },
            ),
            UnitEvent::Status(event) => UnitEvent::Status(
                UnitStatusEvent { name: event.name.clone(), status: event.status.clone() },
            ),
        }
    }
}

/// The views of a sequence of events.
pub open spec fn event_views(events: Seq<UnitEvent>) -> Seq<UnitEventView> {
    events.map_values(|e: UnitEvent| e@)
}

/// What a broadcaster holds: for each subscriber number handed out so far,
/// the events that wait for that subscriber, oldest first, or `None` once the
/// subscriber has left.
pub type BroadcasterView = Seq<Option<Seq<UnitEventView>>>;

/// The queues after `events` were published in order: each subscriber that is
/// still there has them appended.
pub open spec fn deliver(queues: BroadcasterView, events: Seq<UnitEventView>) -> BroadcasterView {
    Seq::new(
        queues.len(),
        |i: int|
            match queues[i] {
                Some(waiting) => Some(waiting + events),
                None => None,
            },
    )
}

/// Publishing in two batches is publishing the two batches joined.
pub proof fn lemma_deliver_twice(
    queues: BroadcasterView,
    first: Seq<UnitEventView>,
    second: Seq<UnitEventView>,
)
    ensures
        deliver(deliver(queues, first), second) == deliver(queues, first + second),
{
    assert forall|i: int| 0 <= i < queues.len() implies deliver(deliver(queues, first), second)[i]
        == deliver(queues, first + second)[i] by {
        if let Some(waiting) = queues[i] {
            assert((waiting + first) + second == waiting + (first + second));
        }
    }
    assert(deliver(deliver(queues, first), second) =~= deliver(queues, first + second));
}

/// Publishing nothing changes nothing.
pub proof fn lemma_deliver_nothing(queues: BroadcasterView)
    ensures
        deliver(queues, Seq::empty()) == queues,
{
    assert forall|i: int| 0 <= i < queues.len() implies deliver(queues, Seq::empty())[i]
        == queues[i] by {
        if let Some(waiting) = queues[i] {
            assert(waiting + Seq::<UnitEventView>::empty() == waiting);
        }
    }
    assert(deliver(queues, Seq::empty()) =~= queues);
}

/// A fan-out bus: every subscriber gets every event published after it
/// subscribed, in the order of publication, in a queue of its own.
pub struct UnitBroadcaster {
    queues: Vec<Option<Vec<UnitEvent>>>,
}

impl View for UnitBroadcaster {
    type V = BroadcasterView;

    closed spec fn view(&self) -> BroadcasterView {
        Seq::new(
            self.queues@.len(),
            |i: int|
                match self.queues@[i] {
                    Some(waiting) => Some(event_views(waiting@)),
                    None => None,
                },
        )
    }
}

impl UnitBroadcaster {
    /// A broadcaster without subscribers.
    pub fn new() -> (broadcaster: Self)
        ensures
            broadcaster@ == Seq::<Option<Seq<UnitEventView>>>::empty(),
    {
        let broadcaster = UnitBroadcaster { queues: Vec::new() };
        assert(broadcaster@ =~= Seq::empty());
        broadcaster
    }

    /// Adds a subscriber with an empty queue and returns its number.
    pub fn subscribe(&mut self) -> (subscriber: usize)
        ensures
            subscriber == old(self)@.len(),
            final(self)@ == old(self)@.push(Some(Seq::empty())),
    {
        let subscriber = self.queues.len();
        let waiting: Vec<UnitEvent> = Vec::new();
        assert(event_views(waiting@) =~= Seq::empty());
        self.queues.push(Some(waiting));
        assert(self@ =~= old(self)@.push(Some(Seq::empty())));
        subscriber
    }

    /// Lets a subscriber go: its queue is reclaimed and it receives no more.
    /// A number that was never handed out changes nothing.
    pub fn unsubscribe(&mut self, subscriber: usize)
        ensures
            final(self)@ == if subscriber < old(self)@.len() {
                old(self)@.update(subscriber as int, None)
            } else {
                old(self)@
            },
    {
        if subscriber < self.queues.len() {
            self.queues.set(subscriber, None);
            assert(self@ =~= old(self)@.update(subscriber as int, None));
        }
    }

    /// Publishes `event`: each subscriber gets a copy at the end of its queue.
    /// Without subscribers nothing happens.
    pub fn broadcast(&mut self, event: &UnitEvent)
        ensures
            final(self)@ == deliver(old(self)@, seq![event@]),
    {
        let mut i: usize = 0;
        while i < self.queues.len()
            invariant
                i <= self.queues.len(),
                self.queues.len() == old(self).queues.len(),
                forall|j: int| 0 <= j < i ==> self@[j] == deliver(old(self)@, seq![event@])[j],
                forall|j: int| i <= j < self.queues.len() ==> self.queues@[j] == old(self).queues@[j],
            decreases self.queues.len() - i,
        {
            let ghost before = *self;
            let slot = self.queues.remove(i);
            match slot {
                Some(mut waiting) => {
                    let ghost was = waiting@;
                    waiting.push(event.clone());
                    assert(event_views(waiting@) =~= event_views(was) + seq![event@]);
                    self.queues.insert(i, Some(waiting));
                },
                None => {
                    self.queues.insert(i, None);
                },
            }
            assert(forall|j: int| 0 <= j < i ==> self.queues@[j] == before.queues@[j]);
            assert(forall|j: int| 0 <= j < i ==> self@[j] == before@[j]);
            assert(before.queues@[i as int] == old(self).queues@[i as int]);
            assert(old(self)@[i as int] == match old(self).queues@[i as int] {
                Some(waiting) => Some(event_views(waiting@)),
                None => None,
            });
            assert(self@[i as int] == deliver(old(self)@, seq![event@])[i as int]);
            assert forall|j: int| 0 <= j < i + 1 implies self@[j] == deliver(
                old(self)@,
                seq![event@],
            )[j] by {
                if j < i {
                    assert(self.queues@[j] == before.queues@[j]);
                    assert(self@[j] == before@[j]);
                }
            }
            i += 1;
        }
        assert(self@ =~= deliver(old(self)@, seq![event@]));
    }

    /// How many events wait for `subscriber`.
    pub fn pending(&self, subscriber: usize) -> (n: usize)
        ensures
            n == if subscriber < self@.len() && self@[subscriber as int] is Some {
                self@[subscriber as int]->0.len()
            } else {
                0
            },
    {
        if subscriber < self.queues.len() {
            match &self.queues[subscriber] {
                Some(waiting) => waiting.len(),
                None => 0,
            }
        } else {
            0
        }
    }

    /// Takes the oldest event that waits for `subscriber`, if there is one.
    pub fn receive(&mut self, subscriber: usize) -> (event: Option<UnitEvent>)
        ensures
            match event {
                Some(e) => {
                    &&& subscriber < old(self)@.len()
                    &&& old(self)@[subscriber as int] matches Some(waiting)
                    &&& waiting.len() > 0
                    &&& e@ == waiting[0]
                    &&& final(self)@ == old(self)@.update(
                        subscriber as int,
                        Some(waiting.drop_first()),
                    )
                },
                None => {
                    &&& final(self)@ == old(self)@
                    &&& subscriber < old(self)@.len() ==> (old(self)@[subscriber as int] matches Some(
                        waiting,
                    ) ==> waiting.len() == 0)
                },
            },
    {
        if subscriber >= self.queues.len() {
            return None;
        }
        let slot = self.queues.remove(subscriber);
        match slot {
            Some(mut waiting) => {
                if waiting.len() == 0 {
                    self.queues.insert(subscriber, Some(waiting));
                    assert(self.queues@ =~= old(self).queues@);
                    None
                } else {
                    let ghost was = waiting@;
                    let event = waiting.remove(0);
                    assert(event_views(waiting@) =~= event_views(was).drop_first());
                    self.queues.insert(subscriber, Some(waiting));
                    assert(self@ =~= old(self)@.update(
                        subscriber as int,
                        Some(event_views(was).drop_first()),
                    ));
                    Some(event)
                }
            },
            None => {
                self.queues.insert(subscriber, None);
                assert(self.queues@ =~= old(self).queues@);
                None
            },
        }
    }
}

} // verus!
