//! Route and route table types.

use vstd::prelude::*;

use crate::members::{Members, Same, lemma_fresh, lemma_push_contains, lemma_take_step};
use crate::types::{Destination, NextHop, Vni};

verus! {

/// A route consisting of a destination and next hop.
#[derive(Debug, Clone, Copy, PartialEq, Eq, Hash, Structural)]
pub struct Route {
    /// The destination prefix.
    pub destination: Destination,
    /// The next hop for this route.
    pub next_hop: NextHop,
}

impl Route {
    /// Creates a new route.
    pub fn new(destination: Destination, next_hop: NextHop) -> (r: Self)
        ensures
            r == (Route { destination, next_hop }),
    {
        Self { destination, next_hop }
    }

    pub open spec fn spec_text(self) -> Seq<char> {
        self.destination.prefix.spec_text() + " via "@ + self.next_hop.spec_text()
    }

    /// The text of a route is that of its destination, " via " and that of its next hop.
    pub proof fn lemma_text(self)
        ensures
            self.spec_text().len() == self.destination.prefix.spec_text().len() + " via "@.len()
                + self.next_hop.spec_text().len(),
            self.spec_text().take(self.destination.prefix.spec_text().len() as int)
                == self.destination.prefix.spec_text(),
            self.spec_text().skip(self.spec_text().len() - self.next_hop.spec_text().len())
                == self.next_hop.spec_text(),
    {
        let d = self.destination.prefix.spec_text();
        let h = self.next_hop.spec_text();
        assert(self.spec_text().take(d.len() as int) =~= d);
        assert(self.spec_text().skip(self.spec_text().len() - h.len()) =~= h);
    }

    /// The route in text form.
    pub fn text(&self) -> (r: String)
        requires
            self.destination.wf(),
        ensures
            r@ == self.spec_text(),
    {
        let mut text = self.destination.text();
        text.append(" via ");
        text.append(self.next_hop.text().as_str());
        assert(text@ =~= self.spec_text());
        text
    }
}

/// A route table: the next hops of each destination in each VNI.
#[derive(Debug)]
pub struct RouteTable {
    entries: Members<(Vni, Destination, NextHop)>,
}

impl Same for (Vni, Destination, NextHop) {
    fn same(&self, other: &Self) -> (r: bool) {
        self.0 == other.0 && self.1 == other.1 && self.2 == other.2
    }
}

impl View for RouteTable {
    type V = Set<(Vni, Destination, NextHop)>;

    closed spec fn view(&self) -> Set<(Vni, Destination, NextHop)> {
        self.entries@
    }
}

/// The routes of a VNI.
pub open spec fn routes_of(table: Set<(Vni, Destination, NextHop)>, vni: Vni) -> Set<Route> {
    Set::new(|route: Route| table.contains((vni, route.destination, route.next_hop)))
}

/// The next hops of a destination in a VNI.
pub open spec fn hops_of(
    table: Set<(Vni, Destination, NextHop)>,
    vni: Vni,
    destination: Destination,
) -> Set<NextHop> {
    Set::new(|next_hop: NextHop| table.contains((vni, destination, next_hop)))
}

/// The table without the routes of a VNI.
pub open spec fn without_vni(table: Set<(Vni, Destination, NextHop)>, vni: Vni) -> Set<
    (Vni, Destination, NextHop),
> {
    table.filter(|e: (Vni, Destination, NextHop)| e.0 != vni)
}

/// The table as pairs of a VNI and a route.
pub open spec fn vni_routes(table: Set<(Vni, Destination, NextHop)>) -> Set<(Vni, Route)> {
    Set::new(|r: (Vni, Route)| table.contains((r.0, r.1.destination, r.1.next_hop)))
}

/// Every way to look at a table shows each of its routes and no other: by VNI, by destination and
/// as a whole.
pub proof fn lemma_table_shown(
    table: Set<(Vni, Destination, NextHop)>,
    vni: Vni,
    destination: Destination,
    next_hop: NextHop,
)
    ensures
        routes_of(table, vni).contains(Route { destination, next_hop }) <==> table.contains(
            (vni, destination, next_hop),
        ),
        hops_of(table, vni, destination).contains(next_hop) <==> table.contains(
            (vni, destination, next_hop),
        ),
        vni_routes(table).contains((vni, Route { destination, next_hop })) <==> table.contains(
            (vni, destination, next_hop),
        ),
{
}

/// When the routes of a VNI go, no route of it is left, and those of the other VNIs stay.
pub proof fn lemma_vni_removed(table: Set<(Vni, Destination, NextHop)>, vni: Vni, other: Vni)
    ensures
        routes_of(without_vni(table, vni), vni) == Set::<Route>::empty(),
        other != vni ==> routes_of(without_vni(table, vni), other) == routes_of(table, other),
        without_vni(table, vni).subset_of(table),
        forall|e: (Vni, Destination, NextHop)| #[trigger]
            table.contains(e) && e.0 != vni ==> without_vni(table, vni).contains(e),
{
    assert(routes_of(without_vni(table, vni), vni) =~= Set::<Route>::empty());
    if other != vni {
        assert(routes_of(without_vni(table, vni), other) =~= routes_of(table, other));
    }
}

impl RouteTable {
    /// No route is stored twice.
    pub closed spec fn wf(&self) -> bool {
        self.entries.wf()
    }

    /// A table is a finite set.
    pub proof fn lemma_finite(&self)
        requires
            self.wf(),
        ensures
            self@.finite(),
    {
        self.entries.lemma_finite();
    }

    /// Creates a new empty route table.
    pub fn new() -> (r: Self)
        ensures
            r.wf(),
            r@ == Set::<(Vni, Destination, NextHop)>::empty(),
    {
        Self { entries: Members::new() }
    }

    /// Adds a next hop for a destination in a VNI.
    ///
    /// Returns true if the next hop was newly added, false if it already existed.
    pub fn add_next_hop(&mut self, vni: Vni, destination: Destination, next_hop: NextHop) -> (r:
        bool)
        requires
            old(self).wf(),
        ensures
            final(self).wf(),
            final(self)@ == old(self)@.insert((vni, destination, next_hop)),
            r == !old(self)@.contains((vni, destination, next_hop)),
    {
        self.entries.insert((vni, destination, next_hop))
    }

    /// Removes a next hop for a destination in a VNI.
    ///
    /// Returns true if the next hop was removed, false if it didn't exist.
    /// Also returns the number of remaining next hops for this destination.
    pub fn remove_next_hop(
        &mut self,
        vni: Vni,
        destination: &Destination,
        next_hop: &NextHop,
    ) -> (r: (bool, usize))
        requires
            old(self).wf(),
        ensures
            final(self).wf(),
            final(self)@ == old(self)@.remove((vni, *destination, *next_hop)),
            r.0 == old(self)@.contains((vni, *destination, *next_hop)),
            r.1 == hops_of(final(self)@, vni, *destination).len(),
    {
        let removed = self.entries.remove((vni, *destination, *next_hop));
        let remaining = self.get_hops(vni, destination);
        proof {
            remaining@.unique_seq_to_set();
        }
        (removed, remaining.len())
    }

    /// Returns the next hops of a destination in a VNI.
    fn get_hops(&self, vni: Vni, destination: &Destination) -> (r: Vec<NextHop>)
        requires
            self.wf(),
        ensures
            r@.no_duplicates(),
            r@.to_set() == hops_of(self@, vni, *destination),
    {
        let listed = self.entries.list();
        let mut hops: Vec<NextHop> = Vec::new();
        for i in 0..listed.len()
            invariant
                listed@.no_duplicates(),
                listed@.to_set() == self@,
                hops@.no_duplicates(),
                forall|hop: NextHop| #[trigger]
                    hops@.contains(hop) <==> listed@.take(i as int).contains(
                        (vni, *destination, hop),
                    ),
        {
            let e = listed[i];
            let ghost before = hops@;
            proof {
                lemma_take_step(listed@, i as int);
            }
            if e.0 == vni && e.1 == *destination {
                assert(!before.contains(e.2)) by {
                    lemma_fresh(listed@, i as int);
                }
                hops.push(e.2);
            }
            assert forall|hop: NextHop| #[trigger]
                hops@.contains(hop) <==> listed@.take(i + 1).contains(
                    (vni, *destination, hop),
                ) by {
                if e.0 == vni && e.1 == *destination {
                    lemma_push_contains(before, e.2, hop);
                }
            }
        }
        assert(listed@.take(listed@.len() as int) =~= listed@);
        assert(hops@.to_set() =~= hops_of(self@, vni, *destination));
        hops
    }

    /// Checks if a next hop exists for a destination in a VNI.
    pub fn next_hop_exists(&self, vni: Vni, destination: &Destination, next_hop: &NextHop) -> (r:
        bool)
        requires
            self.wf(),
        ensures
            r == self@.contains((vni, *destination, *next_hop)),
    {
        self.entries.contains((vni, *destination, *next_hop))
    }

    /// Returns all VNIs in the route table.
    pub fn get_vnis(&self) -> (r: Vec<Vni>)
        requires
            self.wf(),
        ensures
            r@.no_duplicates(),
            forall|vni: Vni| #[trigger]
                r@.contains(vni) <==> exists|d: Destination, h: NextHop|
                    self@.contains((vni, d, h)),
    {
        let listed = self.entries.list();
        let mut vnis: Vec<Vni> = Vec::new();
        for i in 0..listed.len()
            invariant
                listed@.no_duplicates(),
                listed@.to_set() == self@,
                vnis@.no_duplicates(),
                forall|j: int| 0 <= j < i ==> vnis@.contains((#[trigger] listed@[j]).0),
                forall|vni: Vni| #[trigger]
                    vnis@.contains(vni) ==> exists|j: int|
                        0 <= j < i && (#[trigger] listed@[j]).0 == vni,
        {
            let vni = listed[i].0;
            let ghost before = vnis@;
            let mut known = false;
            for k in 0..vnis.len()
                invariant
                    vnis@ == before,
                    known <==> vnis@.take(k as int).contains(vni),
            {
                proof {
                    lemma_take_step(vnis@, k as int);
                }
                if vnis[k] == vni {
                    known = true;
                }
            }
            assert(before.take(before.len() as int) =~= before);
            if !known {
                vnis.push(vni);
                assert forall|x: Vni| #[trigger]
                    vnis@.contains(x) <==> before.contains(x) || x == vni by {
                    lemma_push_contains(before, vni, x);
                }
            }
            assert(listed@[i as int].0 == vni);
        }
        proof {
            assert forall|vni: Vni| #[trigger]
                vnis@.contains(vni) <==> exists|d: Destination, h: NextHop|
                    self@.contains((vni, d, h)) by {
                if vnis@.contains(vni) {
                    let j = choose|j: int|
                        0 <= j < listed@.len() && (#[trigger] listed@[j]).0 == vni;
                    let e = listed@[j];
                    assert(self@.contains((vni, e.1, e.2)));
                }
                if exists|d: Destination, h: NextHop| self@.contains((vni, d, h)) {
                    let (d, h) = choose|d: Destination, h: NextHop| self@.contains((vni, d, h));
                    let j = listed@.index_of((vni, d, h));
                    assert(listed@[j].0 == vni);
                }
            }
        }
        vnis
    }

    /// Returns all destinations and their next hops for a VNI.
    pub fn get_destinations_by_vni(&self, vni: Vni) -> (r: Vec<(Destination, Vec<NextHop>)>)
        requires
            self.wf(),
        ensures
            forall|i: int, j: int| 0 <= i < j < r@.len() ==> r@[i].0 != r@[j].0,
            forall|i: int|
                0 <= i < r@.len() ==> {
                    &&& (#[trigger] r@[i]).1@.len() > 0
                    &&& r@[i].1@.no_duplicates()
                    &&& r@[i].1@.to_set() == hops_of(self@, vni, r@[i].0)
                },
            forall|d: Destination, h: NextHop| #[trigger]
                self@.contains((vni, d, h)) ==> exists|i: int|
                    0 <= i < r@.len() && (#[trigger] r@[i]).0 == d,
    {
        let listed = self.entries.list();
        let mut all: Vec<(Destination, Vec<NextHop>)> = Vec::new();
        for i in 0..listed.len()
            invariant
                self.wf(),
                listed@.no_duplicates(),
                listed@.to_set() == self@,
                forall|i: int, j: int| 0 <= i < j < all@.len() ==> all@[i].0 != all@[j].0,
                forall|k: int|
                    0 <= k < all@.len() ==> {
                        &&& (#[trigger] all@[k]).1@.len() > 0
                        &&& all@[k].1@.no_duplicates()
                        &&& all@[k].1@.to_set() == hops_of(self@, vni, all@[k].0)
                    },
                forall|j: int|
                    0 <= j < i && (#[trigger] listed@[j]).0 == vni ==> exists|k: int|
                        0 <= k < all@.len() && (#[trigger] all@[k]).0 == listed@[j].1,
        {
            let e = listed[i];
            if e.0 == vni {
                let ghost before = all@;
                let mut known = false;
                for k in 0..all.len()
                    invariant
                        all@ == before,
                        known <==> exists|j: int|
                            0 <= j < k && (#[trigger] all@[j]).0 == e.1,
                {
                    if all[k].0 == e.1 {
                        known = true;
                    }
                }
                if !known {
                    let hops = self.get_hops(vni, &e.1);
                    proof {
                        assert(self@.contains(listed@[i as int]));
                        assert(hops@.to_set().contains(e.2));
                    }
                    all.push((e.1, hops));
                    assert(all@[before.len() as int].0 == e.1);
                    assert(forall|k: int| 0 <= k < before.len() ==> all@[k] == before[k]);
                }
            }
        }
        proof {
            assert forall|d: Destination, h: NextHop| #[trigger]
                self@.contains((vni, d, h)) implies exists|i: int|
                0 <= i < all@.len() && (#[trigger] all@[i]).0 == d by {
                let j = listed@.index_of((vni, d, h));
                assert(listed@[j].0 == vni);
            }
        }
        all
    }

    /// Returns all routes for a VNI.
    pub fn get_routes_by_vni(&self, vni: Vni) -> (r: Vec<Route>)
        requires
            self.wf(),
        ensures
            r@.no_duplicates(),
            r@.to_set() == routes_of(self@, vni),
    {
        let listed = self.entries.list();
        let mut routes: Vec<Route> = Vec::new();
        for i in 0..listed.len()
            invariant
                listed@.no_duplicates(),
                listed@.to_set() == self@,
                routes@.no_duplicates(),
                forall|route: Route| #[trigger]
                    routes@.contains(route) <==> listed@.take(i as int).contains(
                        (vni, route.destination, route.next_hop),
                    ),
        {
            let e = listed[i];
            let ghost before = routes@;
            proof {
                lemma_take_step(listed@, i as int);
            }
            if e.0 == vni {
                let route = Route::new(e.1, e.2);
                assert(!before.contains(route)) by {
                    lemma_fresh(listed@, i as int);
                }
                routes.push(route);
            }
            assert forall|route: Route| #[trigger]
                routes@.contains(route) <==> listed@.take(i + 1).contains(
                    (vni, route.destination, route.next_hop),
                ) by {
                if e.0 == vni {
                    lemma_push_contains(
                        before,
                        Route { destination: e.1, next_hop: e.2 },
                        route,
                    );
                }
            }
        }
        assert(listed@.take(listed@.len() as int) =~= listed@);
        assert(routes@.to_set() =~= routes_of(self@, vni));
        routes
    }

    /// Returns all routes in the table.
    pub fn get_all_routes(&self) -> (r: Vec<(Vni, Route)>)
        requires
            self.wf(),
        ensures
            r@.no_duplicates(),
            r@.to_set() == vni_routes(self@),
    {
        let listed = self.entries.list();
        let mut routes: Vec<(Vni, Route)> = Vec::new();
        for i in 0..listed.len()
            invariant
                listed@.no_duplicates(),
                listed@.to_set() == self@,
                routes@.len() == i,
                forall|j: int|
                    0 <= j < i ==> (#[trigger] routes@[j]).0 == listed@[j].0
                        && routes@[j].1.destination == listed@[j].1
                        && routes@[j].1.next_hop == listed@[j].2,
        {
            let e = listed[i];
            routes.push((e.0, Route::new(e.1, e.2)));
        }
        proof {
            assert forall|i: int, j: int| 0 <= i < routes@.len() && 0 <= j < routes@.len() && i
                != j implies routes@[i] != routes@[j] by {
                assert(listed@[i] != listed@[j]);
            }
            assert forall|r: (Vni, Route)|
                routes@.to_set().contains(r) == vni_routes(self@).contains(r) by {
                let e = (r.0, r.1.destination, r.1.next_hop);
                if routes@.contains(r) {
                    let j = routes@.index_of(r);
                    assert(listed@[j] == e);
                }
                if listed@.contains(e) {
                    let j = listed@.index_of(e);
                    assert(routes@[j] == r);
                }
            }
            assert(routes@.to_set() =~= vni_routes(self@));
        }
        routes
    }

    /// Removes all routes for a VNI and returns them.
    pub fn remove_vni(&mut self, vni: Vni) -> (r: Vec<Route>)
        requires
            old(self).wf(),
        ensures
            final(self).wf(),
            final(self)@ == without_vni(old(self)@, vni),
            r@.no_duplicates(),
            r@.to_set() == routes_of(old(self)@, vni),
    {
        let removed = self.get_routes_by_vni(vni);
        for i in 0..removed.len()
            invariant
                self.wf(),
                removed@.to_set() == routes_of(old(self)@, vni),
                forall|e: (Vni, Destination, NextHop)| #[trigger]
                    self@.contains(e) <==> old(self)@.contains(e) && !(e.0 == vni
                        && removed@.take(i as int).contains(
                        Route { destination: e.1, next_hop: e.2 },
                    )),
        {
            let route = removed[i];
            proof {
                lemma_take_step(removed@, i as int);
            }
            let ghost before = self@;
            self.entries.remove((vni, route.destination, route.next_hop));
            assert forall|e: (Vni, Destination, NextHop)| #[trigger]
                self@.contains(e) <==> old(self)@.contains(e) && !(e.0 == vni && removed@.take(
                    i + 1,
                ).contains(Route { destination: e.1, next_hop: e.2 })) by {
                let r = Route { destination: e.1, next_hop: e.2 };
                assert(removed@.take(i + 1).contains(r) <==> removed@.take(i as int).contains(r)
                    || r == route);
                assert(before.contains(e) <==> old(self)@.contains(e) && !(e.0 == vni
                    && removed@.take(i as int).contains(r)));
            }
        }
        proof {
            assert(removed@.take(removed@.len() as int) =~= removed@);
            assert forall|e: (Vni, Destination, NextHop)|
                self@.contains(e) == without_vni(old(self)@, vni).contains(e) by {
                let route = Route { destination: e.1, next_hop: e.2 };
                assert(removed@.to_set().contains(route) == routes_of(old(self)@, vni).contains(
                    route,
                ));
            }
            assert(self@ =~= without_vni(old(self)@, vni));
        }
        removed
    }

    /// Clears all routes from the table.
    pub fn clear(&mut self)
        ensures
            final(self).wf(),
            final(self)@ == Set::<(Vni, Destination, NextHop)>::empty(),
    {
        self.entries = Members::new();
    }

    /// Returns the total number of routes in the table.
    pub fn len(&self) -> (r: usize)
        requires
            self.wf(),
        ensures
            r == self@.len(),
    {
        self.entries.len()
    }

    /// Returns true if the table is empty.
    pub fn is_empty(&self) -> (r: bool)
        requires
            self.wf(),
        ensures
            r == (self@ == Set::<(Vni, Destination, NextHop)>::empty()),
    {
        self.entries.is_empty()
    }
}

impl Default for RouteTable {
    fn default() -> (r: Self)
        ensures
            r.wf(),
            r@ == Set::<(Vni, Destination, NextHop)>::empty(),
    {
        Self::new()
    }
}

} // verus!
