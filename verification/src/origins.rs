//! Which servers announced which routes.

use vstd::prelude::*;

use crate::handler::{RouteEvent, all_news, apply_events, lemma_push_event};
use crate::members::{Members, Same};
use crate::text::decimal_text;
use crate::types::{Destination, NextHop, Vni};

verus! {

/// Unique identifier for each server connection.
#[derive(Debug, Clone, Copy, PartialEq, Eq, Hash, Structural)]
pub struct ServerId(pub usize);

impl Same for ServerId {
    fn same(&self, other: &Self) -> (r: bool) {
        self.0 == other.0
    }
}

impl ServerId {
    /// The identifier in text form.
    pub fn text(&self) -> (r: String)
        ensures
            r@ == "server-"@ + crate::text::decimal(self.0 as nat),
    {
        let mut text = "server-".to_owned();
        text.append(decimal_text(self.0 as u64).as_str());
        text
    }
}

/// Tracks which servers announced each route for ECMP deduplication.
///
/// It maps each unique route (VNI, destination, next hop) to the set of servers that have
/// announced it.
#[derive(Debug)]
pub struct RouteOriginTracker {
    entries: Vec<((Vni, Destination, NextHop), Members<ServerId>)>,
}

impl View for RouteOriginTracker {
    type V = Map<(Vni, Destination, NextHop), Set<ServerId>>;

    closed spec fn view(&self) -> Map<(Vni, Destination, NextHop), Set<ServerId>> {
        Map::new(
            |key: (Vni, Destination, NextHop)| self.has(key),
            |key: (Vni, Destination, NextHop)| self.entries@[self.place(key)].1@,
        )
    }
}

impl RouteOriginTracker {
    spec fn has(&self, key: (Vni, Destination, NextHop)) -> bool {
        exists|i: int| 0 <= i < self.entries@.len() && (#[trigger] self.entries@[i]).0 == key
    }

    spec fn place(&self, key: (Vni, Destination, NextHop)) -> int {
        choose|i: int| 0 <= i < self.entries@.len() && (#[trigger] self.entries@[i]).0 == key
    }

    /// Every route stands once, with at least one server.
    pub closed spec fn wf(&self) -> bool {
        &&& forall|i: int, j: int|
            0 <= i < j < self.entries@.len() ==> (#[trigger] self.entries@[i]).0 != (
            #[trigger] self.entries@[j]).0
        &&& forall|i: int|
            0 <= i < self.entries@.len() ==> (#[trigger] self.entries@[i]).1.wf()
                && self.entries@[i].1@ != Set::<ServerId>::empty()
    }

    /// Every route that is known has a server.
    pub proof fn lemma_all_announced(&self)
        requires
            self.wf(),
        ensures
            all_announced(self@),
    {
        assert forall|key: (Vni, Destination, NextHop)| #[trigger]
            self@.contains_key(key) implies self@[key] != Set::<ServerId>::empty() by {
            self.lemma_at(self.place(key));
        }
    }

    /// The routes that are known are finitely many.
    pub proof fn lemma_finite(&self)
        requires
            self.wf(),
        ensures
            self@.dom().finite(),
    {
        let keys = Seq::new(self.entries@.len(), |i: int| self.entries@[i].0);
        assert forall|key: (Vni, Destination, NextHop)|
            keys.to_set().contains(key) == self@.dom().contains(key) by {
            if keys.contains(key) {
                let j = keys.index_of(key);
                assert(self.entries@[j].0 == key);
            }
            if self.has(key) {
                assert(keys[self.place(key)] == key);
            }
        }
        assert(keys.to_set() =~= self@.dom());
        vstd::seq_lib::seq_to_set_is_finite(keys);
    }

    proof fn lemma_at(&self, i: int)
        requires
            self.wf(),
            0 <= i < self.entries@.len(),
        ensures
            self@.contains_key(self.entries@[i].0),
            self@[self.entries@[i].0] == self.entries@[i].1@,
    {
        let key = self.entries@[i].0;
        assert(self.has(key));
        let j = self.place(key);
        assert(0 <= j < self.entries@.len() && self.entries@[j].0 == key);
        assert(i == j);
    }

    /// Creates a tracker that knows no route.
    pub fn new() -> (r: Self)
        ensures
            r.wf(),
            r@ == Map::<(Vni, Destination, NextHop), Set<ServerId>>::empty(),
    {
        let r = Self { entries: Vec::new() };
        assert(r@ =~= Map::<(Vni, Destination, NextHop), Set<ServerId>>::empty());
        r
    }

    fn position(&self, key: (Vni, Destination, NextHop)) -> (r: Option<usize>)
        ensures
            match r {
                Some(i) => i < self.entries@.len() && self.entries@[i as int].0 == key,
                None => !self@.contains_key(key),
            },
    {
        for i in 0..self.entries.len()
            invariant
                forall|j: int| 0 <= j < i ==> (#[trigger] self.entries@[j]).0 != key,
        {
            if self.entries[i].0.same(&key) {
                return Some(i);
            }
        }
        None
    }

    /// Records that a server announced this route.
    /// Returns `true` if this is the first server to announce this route.
    pub fn add_origin(
        &mut self,
        vni: Vni,
        dest: Destination,
        hop: NextHop,
        server: ServerId,
    ) -> (r: bool)
        requires
            old(self).wf(),
        ensures
            final(self).wf(),
            final(self)@ == add_server(old(self)@, (vni, dest, hop), server),
            r == !old(self)@.contains_key((vni, dest, hop)),
    {
        let ghost key = (vni, dest, hop);
        let ghost before = self.entries@;
        match self.position((vni, dest, hop)) {
            Some(i) => {
                proof {
                    self.lemma_at(i as int);
                }
                self.entries[i].1.insert(server);
                proof {
                    assert(self.entries@[i as int].1@.contains(server));
                    self.lemma_same_but(old(self), i as int);
                    assert(self@ =~= add_server(old(self)@, key, server));
                }
                false
            },
            None => {
                let mut servers: Members<ServerId> = Members::new();
                servers.insert(server);
                assert(servers@.contains(server));
                assert(servers@ =~= set![server]);
                self.entries.push(((vni, dest, hop), servers));
                proof {
                    let n = before.len() as int;
                    assert(forall|j: int| 0 <= j < n ==> self.entries@[j] == before[j]);
                    assert forall|j: int| 0 <= j < n implies (#[trigger] before[j]).0 != key by {
                        old(self).lemma_at(j);
                    }
                    assert(self.wf());
                    self.lemma_at(n);
                    assert forall|k: (Vni, Destination, NextHop)| k != key implies self@.contains_key(
                        k,
                    ) == old(self)@.contains_key(k) && (self@.contains_key(k) ==> self@[k] == old(
                        self,
                    )@[k]) by {
                        if old(self).has(k) {
                            let j = old(self).place(k);
                            assert(self.entries@[j].0 == k);
                            self.lemma_at(j);
                            old(self).lemma_at(j);
                        }
                        if self.has(k) {
                            let j = self.place(k);
                            assert(before[j].0 == k);
                        }
                    }
                    assert(self@ =~= add_server(old(self)@, key, server));
                }
                true
            },
        }
    }

    /// What differs when the servers of one entry differ.
    proof fn lemma_same_but(&self, other: &RouteOriginTracker, i: int)
        requires
            self.wf(),
            other.wf(),
            0 <= i < self.entries@.len() == other.entries@.len(),
            self.entries@[i].0 == other.entries@[i].0,
            forall|j: int|
                0 <= j < self.entries@.len() && j != i ==> self.entries@[j] == other.entries@[j],
        ensures
            self@ == other@.insert(self.entries@[i].0, self.entries@[i].1@),
    {
        assert forall|j: int| 0 <= j < self.entries@.len() implies (#[trigger] self.entries@[j]).0
            == other.entries@[j].0 by {
            if j != i {
                assert(self.entries@[j] == other.entries@[j]);
            }
        }
        assert forall|k: (Vni, Destination, NextHop)| self.has(k) == other.has(k) by {
            if self.has(k) {
                let j = self.place(k);
                assert(other.entries@[j].0 == k);
            }
            if other.has(k) {
                let j = other.place(k);
                assert(self.entries@[j].0 == k);
            }
        }
        assert forall|k: (Vni, Destination, NextHop)| self.has(k) implies self@[k]
            == other@.insert(self.entries@[i].0, self.entries@[i].1@)[k] by {
            let j = self.place(k);
            self.lemma_at(j);
            other.lemma_at(j);
        }
        self.lemma_at(i);
        assert(self@ =~= other@.insert(self.entries@[i].0, self.entries@[i].1@));
    }

    /// What is left when one entry is taken out.
    proof fn lemma_all_but(&self, other: &RouteOriginTracker, i: int)
        requires
            other.wf(),
            0 <= i < other.entries@.len(),
            self.entries@ == other.entries@.remove(i),
        ensures
            self.wf(),
            self@ == other@.remove(other.entries@[i].0),
    {
        let gone = other.entries@[i].0;
        assert forall|j: int| 0 <= j < self.entries@.len() implies #[trigger] self.entries@[j]
            == other.entries@[if j < i { j } else { j + 1 }] by {}
        assert(self.wf());
        assert forall|k: (Vni, Destination, NextHop)|
            self@.contains_key(k) == other@.remove(gone).contains_key(k) by {
            if self.has(k) {
                let j = self.place(k);
                let p = if j < i { j } else { j + 1 };
                assert(other.entries@[p].0 == k);
                assert(k != gone);
            }
            if other.has(k) && k != gone {
                let j = other.place(k);
                let p = if j < i { j } else { j - 1 };
                assert(self.entries@[p].0 == k);
            }
        }
        assert forall|k: (Vni, Destination, NextHop)| self@.contains_key(k) implies self@[k]
            == other@[k] by {
            let j = self.place(k);
            self.lemma_at(j);
            other.lemma_at(if j < i { j } else { j + 1 });
        }
        assert(self@ =~= other@.remove(gone));
    }

    /// Records that a server withdrew this route.
    /// Returns `true` if all servers have now withdrawn this route.
    pub fn remove_origin(
        &mut self,
        vni: Vni,
        dest: &Destination,
        hop: &NextHop,
        server: ServerId,
    ) -> (r: bool)
        requires
            old(self).wf(),
        ensures
            final(self).wf(),
            final(self)@ == drop_server(old(self)@, (vni, *dest, *hop), server),
            r == only_server(old(self)@, (vni, *dest, *hop), server),
    {
        let ghost key = (vni, *dest, *hop);
        match self.position((vni, *dest, *hop)) {
            Some(i) => {
                proof {
                    self.lemma_at(i as int);
                }
                let mut servers = Members::new();
                std::mem::swap(&mut self.entries[i].1, &mut servers);
                servers.remove(server);
                if servers.is_empty() {
                    let ghost before = self.entries@;
                    self.entries.remove(i);
                    proof {
                        assert(self.entries@ =~= old(self).entries@.remove(i as int));
                        self.lemma_all_but(old(self), i as int);
                    }
                    true
                } else {
                    self.entries[i].1 = servers;
                    proof {
                        self.lemma_same_but(old(self), i as int);
                    }
                    false
                }
            },
            None => {
                assert(drop_server(self@, key, server) =~= self@);
                false
            },
        }
    }

    /// Takes in what one server told about routes, and returns what is news to the user: a route
    /// is added with the first server that announces it and removed with the last one that
    /// withdraws it.
    pub fn deduplicate(&mut self, server: ServerId, events: &Vec<RouteEvent>) -> (r: Vec<
        RouteEvent,
    >)
        requires
            old(self).wf(),
        ensures
            final(self).wf(),
            final(self)@ == track_events(old(self)@, server, events@),
            r@ == passed_events(old(self)@, server, events@),
    {
        let mut passed: Vec<RouteEvent> = Vec::new();
        for i in 0..events.len()
            invariant
                self.wf(),
                self@ == track_events(old(self)@, server, events@.take(i as int)),
                passed@ == passed_events(old(self)@, server, events@.take(i as int)),
        {
            assert(events@.take(i + 1).drop_last() =~= events@.take(i as int));
            let event = events[i];
            let is_news = match event {
                RouteEvent::Added { vni, route } => self.add_origin(
                    vni,
                    route.destination,
                    route.next_hop,
                    server,
                ),
                RouteEvent::Removed { vni, route } => self.remove_origin(
                    vni,
                    &route.destination,
                    &route.next_hop,
                    server,
                ),
            };
            if is_news {
                passed.push(event);
            }
        }
        assert(events@.take(events@.len() as int) =~= events@);
        passed
    }

    /// Removes all routes from a specific server.
    /// Returns the routes where this was the last server announcing them.
    pub fn remove_server(&mut self, server: ServerId) -> (r: Vec<(Vni, Destination, NextHop)>)
        requires
            old(self).wf(),
        ensures
            final(self).wf(),
            final(self)@ == drop_server_everywhere(old(self)@, server),
            r@.no_duplicates(),
            forall|key: (Vni, Destination, NextHop)| #[trigger]
                r@.contains(key) <==> only_server(old(self)@, key, server),
    {
        let mut to_notify: Vec<(Vni, Destination, NextHop)> = Vec::new();
        let keys = self.keys();
        proof {
            assert(keys@.take(0).len() == 0);
            assert(self@ =~= partly_dropped(old(self)@, keys@.take(0), server));
        }
        for i in 0..keys.len()
            invariant
                self.wf(),
                keys@.no_duplicates(),
                keys@.to_set() == old(self)@.dom(),
                self@ == partly_dropped(old(self)@, keys@.take(i as int), server),
                to_notify@.no_duplicates(),
                forall|key: (Vni, Destination, NextHop)| #[trigger]
                    to_notify@.contains(key) <==> keys@.take(i as int).contains(key)
                        && only_server(old(self)@, key, server),
        {
            let key = keys[i];
            let ghost before = to_notify@;
            proof {
                crate::members::lemma_fresh(keys@, i as int);
                crate::members::lemma_take_step(keys@, i as int);
                assert(keys@.to_set().contains(key));
                lemma_drop_step(old(self)@, keys@.take(i as int), keys@.take(i + 1), key, server);
            }
            if self.remove_origin(key.0, &key.1, &key.2, server) {
                assert(!before.contains(key));
                to_notify.push(key);
                assert forall|k: (Vni, Destination, NextHop)| #[trigger]
                    to_notify@.contains(k) <==> before.contains(k) || k == key by {
                    crate::members::lemma_push_contains(before, key, k);
                }
            }
        }
        proof {
            assert(keys@.take(keys@.len() as int) =~= keys@);
            assert forall|key: (Vni, Destination, NextHop)|
                old(self)@.contains_key(key) == keys@.contains(key) by {
                assert(keys@.to_set().contains(key) == old(self)@.dom().contains(key));
            }
            assert(self@ =~= drop_server_everywhere(old(self)@, server));
        }
        to_notify
    }

    /// The routes that are known.
    pub fn keys(&self) -> (r: Vec<(Vni, Destination, NextHop)>)
        requires
            self.wf(),
        ensures
            r@.no_duplicates(),
            r@.to_set() == self@.dom(),
    {
        let mut keys: Vec<(Vni, Destination, NextHop)> = Vec::new();
        for i in 0..self.entries.len()
            invariant
                keys@.len() == i,
                forall|j: int| 0 <= j < i ==> keys@[j] == (#[trigger] self.entries@[j]).0,
        {
            keys.push(self.entries[i].0);
        }
        proof {
            assert forall|key: (Vni, Destination, NextHop)|
                keys@.to_set().contains(key) == self@.dom().contains(key) by {
                if keys@.contains(key) {
                    let j = keys@.index_of(key);
                    assert(self.entries@[j].0 == key);
                }
                if self.has(key) {
                    let j = self.place(key);
                    assert(keys@[j] == key);
                }
            }
            assert(keys@.to_set() =~= self@.dom());
            assert forall|i: int, j: int|
                0 <= i < keys@.len() && 0 <= j < keys@.len() && i != j implies keys@[i]
                != keys@[j] by {
                assert(self.entries@[i].0 == keys@[i] && self.entries@[j].0 == keys@[j]);
            }
        }
        keys
    }

    /// How many routes are known.
    pub fn len(&self) -> (r: usize)
        requires
            self.wf(),
        ensures
            r == self@.dom().len(),
    {
        let keys = self.keys();
        proof {
            keys@.unique_seq_to_set();
        }
        keys.len()
    }

    /// Whether no route is known.
    pub fn is_empty(&self) -> (r: bool)
        requires
            self.wf(),
        ensures
            r == (self@.dom() == Set::<(Vni, Destination, NextHop)>::empty()),
    {
        let keys = self.keys();
        proof {
            if keys@.len() > 0 {
                assert(keys@.to_set().contains(keys@[0]));
            } else {
                assert(keys@.to_set() =~= Set::<(Vni, Destination, NextHop)>::empty());
            }
        }
        keys.len() == 0
    }

    /// All routes with the servers that announced them.
    pub fn get_all(&self) -> (r: Vec<((Vni, Destination, NextHop), Vec<ServerId>)>)
        requires
            self.wf(),
        ensures
            forall|i: int, j: int| 0 <= i < j < r@.len() ==> r@[i].0 != r@[j].0,
            forall|i: int|
                0 <= i < r@.len() ==> {
                    &&& self@.contains_key((#[trigger] r@[i]).0)
                    &&& r@[i].1@.no_duplicates()
                    &&& r@[i].1@.to_set() == self@[r@[i].0]
                },
            forall|key: (Vni, Destination, NextHop)| #[trigger]
                self@.contains_key(key) ==> exists|i: int|
                    0 <= i < r@.len() && (#[trigger] r@[i]).0 == key,
    {
        let mut all: Vec<((Vni, Destination, NextHop), Vec<ServerId>)> = Vec::new();
        for i in 0..self.entries.len()
            invariant
                self.wf(),
                all@.len() == i,
                forall|j: int|
                    0 <= j < i ==> {
                        &&& (#[trigger] all@[j]).0 == self.entries@[j].0
                        &&& all@[j].1@.no_duplicates()
                        &&& all@[j].1@.to_set() == self.entries@[j].1@
                    },
        {
            all.push((self.entries[i].0, self.entries[i].1.list()));
        }
        proof {
            assert forall|i: int| 0 <= i < all@.len() implies self@.contains_key(
                (#[trigger] all@[i]).0,
            ) && all@[i].1@.to_set() == self@[all@[i].0] by {
                self.lemma_at(i);
            }
            assert forall|key: (Vni, Destination, NextHop)| #[trigger]
                self@.contains_key(key) implies exists|i: int|
                0 <= i < all@.len() && (#[trigger] all@[i]).0 == key by {
                let j = self.place(key);
                assert(all@[j].0 == key);
            }
            assert forall|i: int, j: int| 0 <= i < j < all@.len() implies all@[i].0
                != all@[j].0 by {
                assert(self.entries@[i].0 != self.entries@[j].0);
            }
        }
        all
    }

    /// The servers that announced a route.
    pub fn get_servers(&self, vni: Vni, dest: &Destination, hop: &NextHop) -> (r: Option<
        Vec<ServerId>,
    >)
        requires
            self.wf(),
        ensures
            match r {
                Some(servers) => {
                    &&& self@.contains_key((vni, *dest, *hop))
                    &&& servers@.no_duplicates()
                    &&& servers@.to_set() == self@[(vni, *dest, *hop)]
                },
                None => !self@.contains_key((vni, *dest, *hop)),
            },
    {
        match self.position((vni, *dest, *hop)) {
            Some(i) => {
                proof {
                    self.lemma_at(i as int);
                }
                Some(self.entries[i].1.list())
            },
            None => None,
        }
    }
}

impl Default for RouteOriginTracker {
    fn default() -> (r: Self)
        ensures
            r.wf(),
            r@ == Map::<(Vni, Destination, NextHop), Set<ServerId>>::empty(),
    {
        Self::new()
    }
}

// ----------------------------------------------------------------------------
// What the operations mean
// ----------------------------------------------------------------------------

/// The origins with one more server for a route.
pub open spec fn add_server(
    origins: Map<(Vni, Destination, NextHop), Set<ServerId>>,
    key: (Vni, Destination, NextHop),
    server: ServerId,
) -> Map<(Vni, Destination, NextHop), Set<ServerId>> {
    if origins.contains_key(key) {
        origins.insert(key, origins[key].insert(server))
    } else {
        origins.insert(key, set![server])
    }
}

/// No server but this one announced the route.
pub open spec fn only_server(
    origins: Map<(Vni, Destination, NextHop), Set<ServerId>>,
    key: (Vni, Destination, NextHop),
    server: ServerId,
) -> bool {
    origins.contains_key(key) && origins[key].remove(server) == Set::<ServerId>::empty()
}

/// The origins without a server for a route. A route without servers is not kept.
pub open spec fn drop_server(
    origins: Map<(Vni, Destination, NextHop), Set<ServerId>>,
    key: (Vni, Destination, NextHop),
    server: ServerId,
) -> Map<(Vni, Destination, NextHop), Set<ServerId>> {
    if !origins.contains_key(key) {
        origins
    } else if only_server(origins, key, server) {
        origins.remove(key)
    } else {
        origins.insert(key, origins[key].remove(server))
    }
}

/// The origins without a server.
pub open spec fn drop_server_everywhere(
    origins: Map<(Vni, Destination, NextHop), Set<ServerId>>,
    server: ServerId,
) -> Map<(Vni, Destination, NextHop), Set<ServerId>> {
    Map::new(
        |key: (Vni, Destination, NextHop)|
            origins.contains_key(key) && !only_server(origins, key, server),
        |key: (Vni, Destination, NextHop)| origins[key].remove(server),
    )
}

/// The origins after a server told about a route.
pub open spec fn track_event(
    origins: Map<(Vni, Destination, NextHop), Set<ServerId>>,
    server: ServerId,
    event: RouteEvent,
) -> Map<(Vni, Destination, NextHop), Set<ServerId>> {
    match event {
        RouteEvent::Added { .. } => add_server(origins, event.key(), server),
        RouteEvent::Removed { .. } => drop_server(origins, event.key(), server),
    }
}

/// The user is told of what a server told.
pub open spec fn passed_on(
    origins: Map<(Vni, Destination, NextHop), Set<ServerId>>,
    server: ServerId,
    event: RouteEvent,
) -> bool {
    match event {
        RouteEvent::Added { .. } => !origins.contains_key(event.key()),
        RouteEvent::Removed { .. } => only_server(origins, event.key(), server),
    }
}

/// The origins after all that a server told.
pub open spec fn track_events(
    origins: Map<(Vni, Destination, NextHop), Set<ServerId>>,
    server: ServerId,
    events: Seq<RouteEvent>,
) -> Map<(Vni, Destination, NextHop), Set<ServerId>>
    decreases events.len(),
{
    if events.len() == 0 {
        origins
    } else {
        track_event(track_events(origins, server, events.drop_last()), server, events.last())
    }
}

/// What the user is told of all that a server told.
pub open spec fn passed_events(
    origins: Map<(Vni, Destination, NextHop), Set<ServerId>>,
    server: ServerId,
    events: Seq<RouteEvent>,
) -> Seq<RouteEvent>
    decreases events.len(),
{
    if events.len() == 0 {
        Seq::empty()
    } else {
        let passed = passed_events(origins, server, events.drop_last());
        if passed_on(track_events(origins, server, events.drop_last()), server, events.last()) {
            passed.push(events.last())
        } else {
            passed
        }
    }
}

/// A server announced a route and did not withdraw it.
pub open spec fn announced_by(
    origins: Map<(Vni, Destination, NextHop), Set<ServerId>>,
    key: (Vni, Destination, NextHop),
    server: ServerId,
) -> bool {
    origins.contains_key(key) && origins[key].contains(server)
}

/// Every route that is known has a server.
pub open spec fn all_announced(
    origins: Map<(Vni, Destination, NextHop), Set<ServerId>>,
) -> bool {
    forall|key: (Vni, Destination, NextHop)| #[trigger]
        origins.contains_key(key) ==> origins[key] != Set::<ServerId>::empty()
}

// ----------------------------------------------------------------------------
// Laws
// ----------------------------------------------------------------------------

/// What the user was told makes up exactly the routes that are known, and no call repeats what
/// the user was told before.
pub proof fn lemma_user_knows(
    origins: Map<(Vni, Destination, NextHop), Set<ServerId>>,
    server: ServerId,
    events: Seq<RouteEvent>,
)
    ensures
        apply_events(origins.dom(), passed_events(origins, server, events)) == track_events(
            origins,
            server,
            events,
        ).dom(),
        all_news(origins.dom(), passed_events(origins, server, events)),
    decreases events.len(),
{
    if events.len() > 0 {
        let earlier = events.drop_last();
        lemma_user_knows(origins, server, earlier);
        let event = events.last();
        let mid = track_events(origins, server, earlier);
        lemma_push_event(origins.dom(), passed_events(origins, server, earlier), event);
        if passed_on(mid, server, event) {
            assert(event.apply(mid.dom()) =~= track_event(mid, server, event).dom());
        } else {
            assert(mid.dom() =~= track_event(mid, server, event).dom());
        }
    }
}

/// What one server tells about one route changes only whether that server announces that
/// route: it does after an addition and does not after a removal.
pub proof fn lemma_independent(
    origins: Map<(Vni, Destination, NextHop), Set<ServerId>>,
    server: ServerId,
    event: RouteEvent,
    key: (Vni, Destination, NextHop),
    other: ServerId,
)
    requires
        all_announced(origins),
    ensures
        announced_by(track_event(origins, server, event), key, other) == if key == event.key()
            && other == server {
            event is Added
        } else {
            announced_by(origins, key, other)
        },
        all_announced(track_event(origins, server, event)),
{
    let after = track_event(origins, server, event);
    if only_server(origins, event.key(), server) {
        assert(!origins[event.key()].remove(server).contains(other));
    }
    assert forall|k: (Vni, Destination, NextHop)| #[trigger] after.contains_key(k) implies after[k]
        != Set::<ServerId>::empty() by {
        assert(event is Added && k == event.key() ==> after[k].contains(server));
        assert(origins.contains_key(k) ==> origins[k] != Set::<ServerId>::empty());
    }
}

/// The routes that a server announces are those that were received from it, if they were so
/// before, and what the other servers announce stays.
pub proof fn lemma_tracks_server(
    origins: Map<(Vni, Destination, NextHop), Set<ServerId>>,
    server: ServerId,
    received: Set<(Vni, Destination, NextHop)>,
    events: Seq<RouteEvent>,
)
    requires
        all_announced(origins),
        forall|key: (Vni, Destination, NextHop)| #[trigger]
            announced_by(origins, key, server) == received.contains(key),
    ensures
        all_announced(track_events(origins, server, events)),
        forall|key: (Vni, Destination, NextHop)| #[trigger]
            announced_by(track_events(origins, server, events), key, server) == apply_events(
                received,
                events,
            ).contains(key),
        forall|key: (Vni, Destination, NextHop), other: ServerId|
            other != server ==> #[trigger] announced_by(
                track_events(origins, server, events),
                key,
                other,
            ) == announced_by(origins, key, other),
    decreases events.len(),
{
    if events.len() > 0 {
        let earlier = events.drop_last();
        let event = events.last();
        lemma_tracks_server(origins, server, received, earlier);
        let mid = track_events(origins, server, earlier);
        let after = track_events(origins, server, events);
        lemma_independent(mid, server, event, event.key(), server);
        assert forall|key: (Vni, Destination, NextHop)| #[trigger]
            announced_by(after, key, server) == apply_events(received, events).contains(key) by {
            lemma_independent(mid, server, event, key, server);
            assert(announced_by(mid, key, server) == apply_events(received, earlier).contains(
                key,
            ));
        }
        assert forall|key: (Vni, Destination, NextHop), other: ServerId|
            other != server implies #[trigger] announced_by(after, key, other) == announced_by(
            origins,
            key,
            other,
        ) by {
            lemma_independent(mid, server, event, key, other);
            assert(announced_by(mid, key, other) == announced_by(origins, key, other));
        }
    }
}

/// A route is known exactly as long as some server announces it: it goes only when all have
/// withdrawn it.
pub proof fn lemma_known_while_announced(
    origins: Map<(Vni, Destination, NextHop), Set<ServerId>>,
    key: (Vni, Destination, NextHop),
)
    requires
        all_announced(origins),
    ensures
        origins.contains_key(key) <==> exists|server: ServerId|
            #[trigger] announced_by(origins, key, server),
{
    if origins.contains_key(key) {
        assert(origins[key] != Set::<ServerId>::empty());
        if forall|server: ServerId| !origins[key].contains(server) {
            assert(origins[key] =~= Set::<ServerId>::empty());
        }
        let server = choose|server: ServerId| origins[key].contains(server);
        assert(announced_by(origins, key, server));
    }
}

/// The user is told nothing but what servers told, in that order: of each thing that a server
/// tells, the user is told that or nothing.
pub proof fn lemma_passed_step(
    origins: Map<(Vni, Destination, NextHop), Set<ServerId>>,
    server: ServerId,
    events: Seq<RouteEvent>,
    event: RouteEvent,
)
    ensures
        passed_events(origins, server, Seq::empty()) == Seq::<RouteEvent>::empty(),
        track_events(origins, server, Seq::empty()) == origins,
        track_events(origins, server, events.push(event)) == track_event(
            track_events(origins, server, events),
            server,
            event,
        ),
        passed_events(origins, server, events.push(event)) == if passed_on(
            track_events(origins, server, events),
            server,
            event,
        ) {
            passed_events(origins, server, events).push(event)
        } else {
            passed_events(origins, server, events)
        },
{
    assert(events.push(event).drop_last() =~= events);
}

/// Removing a server leaves what the other servers announce.
pub proof fn lemma_server_removed(
    origins: Map<(Vni, Destination, NextHop), Set<ServerId>>,
    server: ServerId,
    key: (Vni, Destination, NextHop),
    other: ServerId,
)
    ensures
        announced_by(drop_server_everywhere(origins, server), key, other) == (announced_by(
            origins,
            key,
            other,
        ) && other != server),
        all_announced(drop_server_everywhere(origins, server)),
{
    let left = drop_server_everywhere(origins, server);
    if only_server(origins, key, server) {
        assert(!origins[key].remove(server).contains(other));
    }
    assert forall|k: (Vni, Destination, NextHop)| #[trigger] left.contains_key(k) implies left[k]
        != Set::<ServerId>::empty() by {
        assert(!only_server(origins, k, server));
    }
}

/// When the user is told of a route: of an addition if no server announced the route before, of a
/// removal if the server that withdraws it announced it and no other does.
pub proof fn lemma_told_first_and_last(
    origins: Map<(Vni, Destination, NextHop), Set<ServerId>>,
    server: ServerId,
    event: RouteEvent,
)
    requires
        all_announced(origins),
    ensures
        event is Added ==> (passed_on(origins, server, event) <==> forall|other: ServerId|
            !(#[trigger] announced_by(origins, event.key(), other))),
        event is Removed ==> (passed_on(origins, server, event) <==> announced_by(
            origins,
            event.key(),
            server,
        ) && forall|other: ServerId|
            other != server ==> !(#[trigger] announced_by(origins, event.key(), other))),
        only_server(origins, event.key(), server) <==> announced_by(origins, event.key(), server)
            && forall|other: ServerId|
            other != server ==> !(#[trigger] announced_by(origins, event.key(), other)),
{
    let key = event.key();
    lemma_known_while_announced(origins, key);
    if origins.contains_key(key) {
        let left = origins[key].remove(server);
        if only_server(origins, key, server) {
            assert forall|other: ServerId| other != server implies !(#[trigger] announced_by(
                origins,
                key,
                other,
            )) by {
                assert(!left.contains(other));
            }
        }
        if forall|other: ServerId|
            other != server ==> !(#[trigger] announced_by(origins, key, other)) {
            assert forall|other: ServerId| !left.contains(other) by {
                assert(other != server ==> !announced_by(origins, key, other));
            }
            assert(left =~= Set::<ServerId>::empty());
        }
    }
}

/// A server announces a route exactly if it is among the servers of the route.
pub proof fn lemma_announced_by(
    origins: Map<(Vni, Destination, NextHop), Set<ServerId>>,
    key: (Vni, Destination, NextHop),
    server: ServerId,
)
    ensures
        announced_by(origins, key, server) <==> origins.dom().contains(key)
            && origins[key].contains(server),
        announced_by(add_server(origins, key, server), key, server),
        !announced_by(drop_server(origins, key, server), key, server),
{
    if only_server(origins, key, server) {
        assert(!drop_server(origins, key, server).contains_key(key));
    }
}

/// The origins without a server for the routes in a list.
spec fn partly_dropped(
    origins: Map<(Vni, Destination, NextHop), Set<ServerId>>,
    done: Seq<(Vni, Destination, NextHop)>,
    server: ServerId,
) -> Map<(Vni, Destination, NextHop), Set<ServerId>> {
    Map::new(
        |key: (Vni, Destination, NextHop)|
            origins.contains_key(key) && !(done.contains(key) && only_server(
                origins,
                key,
                server,
            )),
        |key: (Vni, Destination, NextHop)|
            if done.contains(key) {
                origins[key].remove(server)
            } else {
                origins[key]
            },
    )
}

proof fn lemma_drop_step(
    origins: Map<(Vni, Destination, NextHop), Set<ServerId>>,
    done: Seq<(Vni, Destination, NextHop)>,
    more: Seq<(Vni, Destination, NextHop)>,
    key: (Vni, Destination, NextHop),
    server: ServerId,
)
    requires
        origins.contains_key(key),
        !done.contains(key),
        forall|k: (Vni, Destination, NextHop)| #[trigger]
            more.contains(k) <==> done.contains(k) || k == key,
    ensures
        drop_server(partly_dropped(origins, done, server), key, server) == partly_dropped(
            origins,
            more,
            server,
        ),
        only_server(partly_dropped(origins, done, server), key, server) == only_server(
            origins,
            key,
            server,
        ),
{
    assert(drop_server(partly_dropped(origins, done, server), key, server) =~= partly_dropped(
        origins,
        more,
        server,
    ));
}

} // verus!
