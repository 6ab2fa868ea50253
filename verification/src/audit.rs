//! The audit log: removal events accumulated during a reconciliation pass.
//!
//! Events are append-only within a pass; draining hands the accumulated
//! events to a downstream collaborator (shipping them anywhere is the
//! caller's concern) and resets the log for the next pass.

use vstd::prelude::*;

use crate::category::Category;

verus! {

/// One removal performed (or decided) during a pass.
pub struct RemovalEvent {
    /// Seconds since the epoch at the time the pass ran.
    pub timestamp: u64,
    /// The category the removed container was grouped under.
    pub category: Category,
    /// The name the removed container was listed under.
    pub container_name: String,
    /// What happened to the container; always the removal action.
    pub action: String,
}

/// The mathematical model of a `RemovalEvent`.
pub ghost struct EventModel {
    pub timestamp: int,
    pub category: Category,
    pub container_name: Seq<char>,
    pub action: Seq<char>,
}

impl View for RemovalEvent {
    type V = EventModel;

    open spec fn view(&self) -> EventModel {
        EventModel {
            timestamp: self.timestamp as int,
            category: self.category,
            container_name: self.container_name@,
            action: self.action@,
        }
    }
}

impl DeepView for RemovalEvent {
    type V = EventModel;

    open spec fn deep_view(&self) -> EventModel {
        self.view()
    }
}

impl RemovalEvent {
    /// The event recorded when a container is removed.
    pub fn removed(timestamp: u64, category: Category, container_name: String) -> (e:
        RemovalEvent)
        ensures
            e@.timestamp == timestamp,
            e@.category == category,
            e@.container_name == container_name@,
            e@.action == "removed"@,
    {
        RemovalEvent { timestamp, category, container_name, action: "removed".to_owned() }
    }
}

/// The events a pass's removals give rise to, in removal order.
pub open spec fn events_of_removals(
    removals: Seq<crate::inventory::RecordModel>,
    category: Category,
    timestamp: int,
) -> Seq<EventModel> {
    removals.map_values(
        |r: crate::inventory::RecordModel| EventModel {
            timestamp: timestamp,
            category: category,
            container_name: r.name,
            action: "removed"@,
        },
    )
}

/// A process-lifetime accumulator of removal events, reset each pass.
pub struct AuditLog {
    events: Vec<RemovalEvent>,
}

impl View for AuditLog {
    type V = Seq<EventModel>;

    closed spec fn view(&self) -> Seq<EventModel> {
        self.events.deep_view()
    }
}

impl AuditLog {
    /// An empty log.
    pub fn new() -> (log: AuditLog)
        ensures
            log@ =~= Seq::<EventModel>::empty(),
    {
        let log = AuditLog { events: Vec::new() };
        proof {
            assert(log@ =~= Seq::<EventModel>::empty());
        }
        log
    }

    /// Append one event to the current pass's record.
    pub fn record(&mut self, event: RemovalEvent)
        ensures
            final(self)@ == old(self)@.push(event@),
    {
        let ghost before = self@;
        self.events.push(event);
        proof {
            assert(self@ =~= before.push(event@));
        }
    }

    /// Append a whole batch of events in order.
    pub fn record_all(&mut self, mut events: Vec<RemovalEvent>)
        ensures
            final(self)@ == old(self)@ + events.deep_view(),
    {
        let ghost before = self@;
        let ghost incoming = events.deep_view();
        self.events.append(&mut events);
        proof {
            assert(self@ =~= before + incoming);
        }
    }

    /// The events recorded so far in this pass.
    pub fn events(&self) -> (r: &Vec<RemovalEvent>)
        ensures
            r.deep_view() == self@,
    {
        &self.events
    }

    /// Hand out everything recorded and reset the log for the next pass.
    pub fn drain(&mut self) -> (r: Vec<RemovalEvent>)
        ensures
            r.deep_view() == old(self)@,
            final(self)@ =~= Seq::<EventModel>::empty(),
    {
        let r = self.events.split_off(0);
        proof {
            assert(r.deep_view() =~= old(self)@);
        }
        r
    }
}

} // verus!
