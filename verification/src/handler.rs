//! What a user of the library is told about routes.

use std::sync::Arc;

use vstd::prelude::*;

use crate::route::Route;
use crate::types::{Destination, NextHop, Vni};

verus! {

/// Handler for route updates received from the server.
///
/// Implement this trait to process route additions and removals.
pub trait RouteHandler: Send + Sync + 'static {
    /// Called when a route is added.
    fn add_route(&self, vni: Vni, route: Route);

    /// Called when a route is removed.
    fn remove_route(&self, vni: Vni, route: Route);
}

impl<T: RouteHandler> RouteHandler for Arc<T> {
    fn add_route(&self, vni: Vni, route: Route) {
        (**self).add_route(vni, route);
    }

    fn remove_route(&self, vni: Vni, route: Route) {
        (**self).remove_route(vni, route);
    }
}

/// A no-op route handler for testing.
pub struct NoOpHandler;

impl RouteHandler for NoOpHandler {
    fn add_route(&self, _vni: Vni, _route: Route) {
    }

    fn remove_route(&self, _vni: Vni, _route: Route) {
    }
}

/// A call of a route handler that is due.
#[derive(Debug, Clone, Copy, PartialEq, Eq, Structural)]
pub enum RouteEvent {
    /// A route was added.
    Added { vni: Vni, route: Route },
    /// A route was removed.
    Removed { vni: Vni, route: Route },
}

impl RouteEvent {
    /// The route that the event is about.
    pub open spec fn key(self) -> (Vni, Destination, NextHop) {
        match self {
            RouteEvent::Added { vni, route } => (vni, route.destination, route.next_hop),
            RouteEvent::Removed { vni, route } => (vni, route.destination, route.next_hop),
        }
    }

    /// The routes that a handler knows of after the call.
    pub open spec fn apply(self, known: Set<(Vni, Destination, NextHop)>) -> Set<
        (Vni, Destination, NextHop),
    > {
        match self {
            RouteEvent::Added { .. } => known.insert(self.key()),
            RouteEvent::Removed { .. } => known.remove(self.key()),
        }
    }

    /// The call tells a handler something new.
    pub open spec fn is_news(self, known: Set<(Vni, Destination, NextHop)>) -> bool {
        match self {
            RouteEvent::Added { .. } => !known.contains(self.key()),
            RouteEvent::Removed { .. } => known.contains(self.key()),
        }
    }
}

/// The routes that a handler knows of after some calls.
pub open spec fn apply_events(
    known: Set<(Vni, Destination, NextHop)>,
    events: Seq<RouteEvent>,
) -> Set<(Vni, Destination, NextHop)>
    decreases events.len(),
{
    if events.len() == 0 {
        known
    } else {
        events.last().apply(apply_events(known, events.drop_last()))
    }
}

/// Each call tells a handler something new: it adds a route that was not known or removes one
/// that was.
pub open spec fn all_news(
    known: Set<(Vni, Destination, NextHop)>,
    events: Seq<RouteEvent>,
) -> bool
    decreases events.len(),
{
    events.len() == 0 || (all_news(known, events.drop_last()) && events.last().is_news(
        apply_events(known, events.drop_last()),
    ))
}

/// A call is about the VNI, the destination and the next hop that it names: calls about the same
/// route that both add it or both remove it are the same call.
pub proof fn lemma_event_key(one: RouteEvent, other: RouteEvent)
    ensures
        one.key() == other.key() && (one is Added <==> other is Added) ==> one == other,
        one matches RouteEvent::Added { vni, route } ==> one.key() == (
            vni,
            route.destination,
            route.next_hop,
        ),
        one matches RouteEvent::Removed { vni, route } ==> one.key() == (
            vni,
            route.destination,
            route.next_hop,
        ),
{
}

/// After a call, a handler knows of a route that was added and not of one that was removed, and of
/// all others as before. A call that tells nothing new changes nothing.
pub proof fn lemma_event_applied(
    known: Set<(Vni, Destination, NextHop)>,
    event: RouteEvent,
    key: (Vni, Destination, NextHop),
)
    ensures
        event.apply(known).contains(key) <==> if key == event.key() {
            event is Added
        } else {
            known.contains(key)
        },
        event.is_news(known) <==> event.apply(known) != known,
{
    if !event.is_news(known) {
        assert(event.apply(known) =~= known);
    } else {
        assert(event.apply(known).contains(event.key()) != known.contains(event.key()));
    }
}

/// One more call.
pub proof fn lemma_push_event(
    known: Set<(Vni, Destination, NextHop)>,
    events: Seq<RouteEvent>,
    event: RouteEvent,
)
    ensures
        apply_events(known, events.push(event)) == event.apply(apply_events(known, events)),
        all_news(known, events.push(event)) == (all_news(known, events) && event.is_news(
            apply_events(known, events),
        )),
{
    assert(events.push(event).drop_last() =~= events);
}

/// Calls after calls.
pub proof fn lemma_more_events(
    known: Set<(Vni, Destination, NextHop)>,
    events: Seq<RouteEvent>,
    more: Seq<RouteEvent>,
)
    ensures
        apply_events(known, events + more) == apply_events(apply_events(known, events), more),
        all_news(known, events + more) == (all_news(known, events) && all_news(
            apply_events(known, events),
            more,
        )),
    decreases more.len(),
{
    if more.len() == 0 {
        assert(events + more =~= events);
    } else {
        assert((events + more).drop_last() =~= events + more.drop_last());
        lemma_more_events(known, events, more.drop_last());
    }
}

/// What no call and what one call makes of the known routes.
pub proof fn lemma_single_event(known: Set<(Vni, Destination, NextHop)>, event: RouteEvent)
    ensures
        apply_events(known, Seq::empty()) == known,
        all_news(known, Seq::empty()),
        apply_events(known, seq![event]) == event.apply(known),
        all_news(known, seq![event]) == event.is_news(known),
{
    let none = Seq::<RouteEvent>::empty();
    assert(apply_events(known, none) == known);
    assert(none.push(event) =~= seq![event]);
    lemma_push_event(known, none, event);
}

} // verus!
