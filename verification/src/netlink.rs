//! Routes in the Linux kernel.
//!
//! Which routes are installed into kernel routing tables and which are removed from them is
//! decided here, the talking to the kernel is left to the caller.

use std::collections::HashMap;

use vstd::prelude::*;

use crate::error::Error;
use crate::ip::{IpAddr, IpNet, Ipv6Addr};
use crate::text::{self, decimal_text};
use crate::types::{Destination, NextHop, Vni};

verus! {

broadcast use vstd::std_specs::hash::group_hash_axioms;

/// Protocol number used to mark routes installed by MetalBond.
/// This allows identifying and cleaning up MetalBond-managed routes.
pub const METALBOND_RT_PROTO: u8 = 254;

/// Configuration for the netlink client.
#[derive(Debug, Clone)]
pub struct NetlinkConfig {
    /// Maps VNIs to Linux kernel routing table IDs.
    pub vni_table_map: HashMap<u32, u32>,
    /// Name of the tunnel device (e.g., "ip6tnl0").
    pub link_name: String,
}

/// A route that is to be installed.
#[derive(Debug, Clone, Copy, PartialEq, Eq, Structural)]
pub struct RouteRequest {
    /// The destination prefix.
    pub destination: Destination,
    /// The gateway: the tunnel endpoint behind the tunnel device.
    pub gateway: Option<Ipv6Addr>,
    /// The index of the tunnel device.
    pub output_interface: u32,
    /// The routing table.
    pub table: u32,
    /// The protocol number.
    pub protocol: u8,
}

/// A route that the kernel reports.
#[derive(Debug)]
pub struct KernelRoute {
    /// The routing table in the header, which holds tables below 256 only.
    pub header_table: u8,
    /// The routing tables among the attributes.
    pub tables: Vec<u32>,
    /// The protocol number.
    pub protocol: u8,
    /// The destinations among the attributes.
    pub destinations: Vec<IpAddr>,
    /// The length of the destination prefix.
    pub prefix_length: u8,
}

impl KernelRoute {
    /// The route is in a routing table. The header tells it or an attribute.
    pub open spec fn in_table(&self, table: u32) -> bool {
        self.header_table == table || self.tables@.contains(table)
    }

    /// The route was installed by MetalBond into a routing table.
    pub open spec fn spec_is_stale(&self, table: u32) -> bool {
        self.in_table(table) && self.protocol == METALBOND_RT_PROTO
    }

    /// The route was installed by MetalBond into a routing table for a destination.
    pub open spec fn spec_matches(&self, destination: Destination, table: u32) -> bool {
        &&& self.spec_is_stale(table)
        &&& self.destinations@.contains(destination.prefix.spec_addr())
        &&& self.prefix_length == destination.prefix.spec_prefix_len()
    }

    /// Whether the route was installed by MetalBond into a routing table.
    pub fn is_stale(&self, table: u32) -> (r: bool)
        ensures
            r == self.spec_is_stale(table),
    {
        if self.protocol != METALBOND_RT_PROTO {
            return false;
        }
        if self.header_table as u32 == table {
            return true;
        }
        for i in 0..self.tables.len()
            invariant
                self.header_table != table,
                self.protocol == METALBOND_RT_PROTO,
                forall|j: int| 0 <= j < i ==> self.tables@[j] != table,
        {
            if self.tables[i] == table {
                return true;
            }
        }
        false
    }

    /// Whether the route was installed by MetalBond into a routing table for a destination.
    pub fn matches(&self, destination: &Destination, table: u32) -> (r: bool)
        ensures
            r == self.spec_matches(*destination, table),
    {
        if !self.is_stale(table) || self.prefix_length != destination.prefix.prefix_len() {
            return false;
        }
        let addr = destination.prefix.addr();
        for i in 0..self.destinations.len()
            invariant
                self.spec_is_stale(table),
                self.prefix_length == destination.prefix.spec_prefix_len(),
                addr == destination.prefix.spec_addr(),
                forall|j: int| 0 <= j < i ==> self.destinations@[j] != addr,
        {
            if self.destinations[i] == addr {
                return true;
            }
        }
        false
    }
}

/// Decides on the routes in the kernel.
#[derive(Debug)]
pub struct NetlinkClient {
    pub config: NetlinkConfig,
    /// The index of the tunnel device.
    pub link_index: u32,
}

/// What is said of a VNI without a routing table.
pub open spec fn no_table(vni: Vni) -> Seq<char> {
    "No route table ID configured for VNI "@ + text::decimal(vni.0 as nat)
}

/// What is said of a route that could not be installed.
pub open spec fn cannot_add(destination: Destination, table: u32, reason: Seq<char>) -> Seq<char> {
    (match destination.prefix {
        IpNet::V4(_) => "Cannot add IPv4 route to "@,
        IpNet::V6(_) => "Cannot add IPv6 route to "@,
    }) + destination.prefix.spec_text() + " (table "@ + text::decimal(table as nat) + "): "@
        + reason
}

/// What is said of a route that could not be removed.
pub open spec fn cannot_remove(destination: Destination, table: u32, reason: Seq<char>) -> Seq<
    char,
> {
    "Cannot remove route to "@ + destination.prefix.spec_text() + " (table "@ + text::decimal(
        table as nat,
    ) + "): "@ + reason
}

/// What is said of a failure names the VNI, or ends with the reason.
pub proof fn lemma_failure_texts(
    one: Vni,
    other: Vni,
    destination: Destination,
    table: u32,
    reason: Seq<char>,
)
    ensures
        no_table(one) == no_table(other) ==> one == other,
        cannot_add(destination, table, reason).len() >= reason.len(),
        cannot_add(destination, table, reason).skip(
            cannot_add(destination, table, reason).len() - reason.len(),
        ) == reason,
        cannot_remove(destination, table, reason).len() >= reason.len(),
        cannot_remove(destination, table, reason).skip(
            cannot_remove(destination, table, reason).len() - reason.len(),
        ) == reason,
{
    let said = "No route table ID configured for VNI "@;
    assert(no_table(one).skip(said.len() as int) =~= text::decimal(one.0 as nat));
    assert(no_table(other).skip(said.len() as int) =~= text::decimal(other.0 as nat));
    if no_table(one) == no_table(other) {
        text::lemma_decimal_tells_apart(one.0 as nat, other.0 as nat);
    }
    let add = cannot_add(destination, table, reason);
    assert(add.skip(add.len() - reason.len()) =~= reason);
    let remove = cannot_remove(destination, table, reason);
    assert(remove.skip(remove.len() - reason.len()) =~= reason);
}

/// Where the kernel's routes that were installed by MetalBond into a routing table stand.
pub open spec fn spec_stale_routes(routes: Seq<KernelRoute>, table: u32) -> Seq<usize>
    decreases routes.len(),
{
    if routes.len() == 0 {
        Seq::empty()
    } else {
        let earlier = spec_stale_routes(routes.drop_last(), table);
        if routes.last().spec_is_stale(table) {
            earlier.push((routes.len() - 1) as usize)
        } else {
            earlier
        }
    }
}

impl NetlinkClient {
    /// Creates a netlink client, given the index of the tunnel device if that was found.
    pub fn new(config: NetlinkConfig, link_index: Option<u32>) -> (r: Result<Self, Error>)
        ensures
            match link_index {
                Some(link_index) => r matches Ok(client) && client.config == config
                    && client.link_index == link_index,
                None => r matches Err(Error::Netlink(s)) && s@ == "Cannot find tunnel device '"@
                    + config.link_name@ + "'"@,
            },
    {
        match link_index {
            Some(link_index) => Ok(Self { config, link_index }),
            None => {
                let mut text = "Cannot find tunnel device '".to_owned();
                text.append(config.link_name.as_str());
                text.append("'");
                Err(Error::Netlink(text))
            },
        }
    }

    /// The routing table of a VNI.
    pub fn table(&self, vni: Vni) -> (r: Result<u32, Error>)
        ensures
            self.config.vni_table_map@.contains_key(vni.0) ==> r == Ok::<u32, Error>(
                self.config.vni_table_map@[vni.0],
            ),
            !self.config.vni_table_map@.contains_key(vni.0) ==> (r matches Err(Error::Netlink(s))
                && s@ == no_table(vni)),
    {
        match self.config.vni_table_map.get(&vni.0) {
            Some(table) => Ok(*table),
            None => {
                let mut text = "No route table ID configured for VNI ".to_owned();
                text.append(vni.text().as_str());
                Err(Error::Netlink(text))
            },
        }
    }

    /// Adds a route to the kernel routing table of a VNI: returns what is to be installed.
    ///
    /// The route is installed with the next hop's target address as the gateway.
    pub fn add_route(&self, vni: Vni, dest: &Destination, next_hop: &NextHop) -> (r: Result<
        RouteRequest,
        Error,
    >)
        ensures
            self.config.vni_table_map@.contains_key(vni.0) ==> r == Ok::<RouteRequest, Error>(
                RouteRequest {
                    destination: *dest,
                    gateway: Some(next_hop.target_address),
                    output_interface: self.link_index,
                    table: self.config.vni_table_map@[vni.0],
                    protocol: METALBOND_RT_PROTO,
                },
            ),
            !self.config.vni_table_map@.contains_key(vni.0) ==> (r matches Err(Error::Netlink(s))
                && s@ == no_table(vni)),
    {
        let table = match self.table(vni) {
            Ok(table) => table,
            Err(e) => return Err(e),
        };
        Ok(
            RouteRequest {
                destination: *dest,
                gateway: Some(next_hop.target_address),
                output_interface: self.link_index,
                table,
                protocol: METALBOND_RT_PROTO,
            },
        )
    }

    /// The error for a route that could not be installed.
    pub fn add_failed(dest: &Destination, table: u32, reason: &str) -> (r: Error)
        requires
            dest.wf(),
        ensures
            r matches Error::Netlink(s) && s@ == cannot_add(*dest, table, reason@),
    {
        let mut text = match dest.prefix {
            IpNet::V4(_) => "Cannot add IPv4 route to ".to_owned(),
            IpNet::V6(_) => "Cannot add IPv6 route to ".to_owned(),
        };
        text.append(dest.text().as_str());
        text.append(" (table ");
        text.append(decimal_text(table as u64).as_str());
        text.append("): ");
        text.append(reason);
        Error::Netlink(text)
    }

    /// Removes a route from the kernel routing table of a VNI: returns which of the kernel's
    /// routes is to be removed, the first that matches. That none does is no error.
    pub fn remove_route(&self, vni: Vni, dest: &Destination, routes: &Vec<KernelRoute>) -> (r:
        Result<Option<usize>, Error>)
        ensures
            !self.config.vni_table_map@.contains_key(vni.0) ==> (r matches Err(Error::Netlink(s))
                && s@ == no_table(vni)),
            self.config.vni_table_map@.contains_key(vni.0) ==> {
                let table = self.config.vni_table_map@[vni.0];
                match r {
                    Ok(Some(i)) => {
                        &&& i < routes@.len() && routes@[i as int].spec_matches(*dest, table)
                        &&& forall|j: int|
                            0 <= j < i ==> !(#[trigger] routes@[j]).spec_matches(*dest, table)
                    },
                    Ok(None) => forall|j: int|
                        0 <= j < routes@.len() ==> !(#[trigger] routes@[j]).spec_matches(
                            *dest,
                            table,
                        ),
                    Err(_) => false,
                }
            },
    {
        let table = match self.table(vni) {
            Ok(table) => table,
            Err(e) => return Err(e),
        };
        for i in 0..routes.len()
            invariant
                self.config.vni_table_map@.contains_key(vni.0),
                table == self.config.vni_table_map@[vni.0],
                forall|j: int| 0 <= j < i ==> !(#[trigger] routes@[j]).spec_matches(*dest, table),
        {
            if routes[i].matches(dest, table) {
                return Ok(Some(i));
            }
        }
        Ok(None)
    }

    /// The error for a route that could not be removed.
    pub fn remove_failed(dest: &Destination, table: u32, reason: &str) -> (r: Error)
        requires
            dest.wf(),
        ensures
            r matches Error::Netlink(s) && s@ == cannot_remove(*dest, table, reason@),
    {
        let mut text = "Cannot remove route to ".to_owned();
        text.append(dest.text().as_str());
        text.append(" (table ");
        text.append(decimal_text(table as u64).as_str());
        text.append("): ");
        text.append(reason);
        Error::Netlink(text)
    }

    /// Cleans up a routing table: returns which of the kernel's routes are to be removed, all
    /// that were installed by MetalBond.
    pub fn cleanup_routes_for_table(table: u32, routes: &Vec<KernelRoute>) -> (r: Vec<usize>)
        ensures
            r@ == spec_stale_routes(routes@, table),
    {
        let mut to_delete: Vec<usize> = Vec::new();
        for i in 0..routes.len()
            invariant
                to_delete@ == spec_stale_routes(routes@.take(i as int), table),
        {
            assert(routes@.take(i + 1).drop_last() =~= routes@.take(i as int));
            if routes[i].is_stale(table) {
                to_delete.push(i);
            }
        }
        assert(routes@.take(routes@.len() as int) =~= routes@);
        to_delete
    }
}

/// A kernel route is taken for that of a destination only if it was installed by MetalBond, into
/// the table in question, and leads to the very address of the destination with its prefix length.
/// A route that leads elsewhere is never taken for it.
pub proof fn lemma_match_means(route: KernelRoute, destination: Destination, table: u32)
    requires
        route.spec_matches(destination, table),
    ensures
        route.protocol == METALBOND_RT_PROTO,
        route.header_table == table || exists|i: int|
            0 <= i < route.tables@.len() && route.tables@[i] == table,
        match destination.prefix {
            IpNet::V4(net) => {
                &&& exists|i: int|
                    0 <= i < route.destinations@.len() && route.destinations@[i] == IpAddr::V4(
                        net.addr,
                    )
                &&& route.prefix_length == net.prefix_len
            },
            IpNet::V6(net) => {
                &&& exists|i: int|
                    0 <= i < route.destinations@.len() && route.destinations@[i] == IpAddr::V6(
                        net.addr,
                    )
                &&& route.prefix_length == net.prefix_len
            },
        },
        forall|a: IpAddr|
            route.destinations@ == seq![a] ==> (match destination.prefix {
                IpNet::V4(net) => a == IpAddr::V4(net.addr),
                IpNet::V6(net) => a == IpAddr::V6(net.addr),
            }),
{
    let addr = destination.prefix.spec_addr();
    let i = route.destinations@.index_of(addr);
    assert(route.destinations@[i] == addr);
    if route.header_table != table {
        let j = route.tables@.index_of(table);
        assert(route.tables@[j] == table);
    }
}

/// A kernel route with one destination is taken for that of one destination only, and if it reports
/// one table, for that in one table only.
pub proof fn lemma_match_unique(
    route: KernelRoute,
    one: Destination,
    table: u32,
    other: Destination,
    other_table: u32,
)
    requires
        route.destinations@.len() == 1,
        route.spec_matches(one, table),
        route.spec_matches(other, other_table),
    ensures
        one == other,
        route.tables@ == seq![route.header_table as u32] ==> table == other_table,
        route.tables@.len() == 0 ==> table == other_table,
{
    lemma_match_means(route, one, table);
    lemma_match_means(route, other, other_table);
    assert(route.destinations@ =~= seq![route.destinations@[0]]);
}

/// Which of the kernel's routes MetalBond takes for its own in a table: those with its protocol
/// number that report the table, in the header or as an attribute.
pub proof fn lemma_stale_means(route: KernelRoute, table: u32)
    ensures
        route.spec_is_stale(table) ==> route.protocol == METALBOND_RT_PROTO && (route.header_table
            == table || route.tables@.contains(table)),
        route.protocol == METALBOND_RT_PROTO && route.header_table == table
            ==> route.spec_is_stale(table),
        route.protocol == METALBOND_RT_PROTO && route.tables@.contains(table)
            ==> route.spec_is_stale(table),
        route.protocol != METALBOND_RT_PROTO ==> !route.spec_is_stale(table),
{
}

/// The routes that a clean-up removes are listed in the kernel's order, each once.
pub proof fn lemma_cleanup_ordered(routes: Seq<KernelRoute>, table: u32)
    requires
        routes.len() <= usize::MAX,
    ensures
        forall|i: int, j: int|
            0 <= i < j < spec_stale_routes(routes, table).len() ==> #[trigger] spec_stale_routes(
                routes,
                table,
            )[i] < #[trigger] spec_stale_routes(routes, table)[j],
        forall|i: int|
            0 <= i < spec_stale_routes(routes, table).len() ==> #[trigger] spec_stale_routes(
                routes,
                table,
            )[i] < routes.len(),
    decreases routes.len(),
{
    lemma_stale_below(routes, table);
    if routes.len() > 0 {
        let fewer = spec_stale_routes(routes.drop_last(), table);
        let all = spec_stale_routes(routes, table);
        lemma_cleanup_ordered(routes.drop_last(), table);
        assert forall|i: int, j: int| 0 <= i < j < all.len() implies #[trigger] all[i]
            < #[trigger] all[j] by {
            assert(all[i] == fewer[i]);
            if j < fewer.len() {
                assert(all[j] == fewer[j]);
            }
        }
    }
}

/// Cleaning up a routing table removes every route that MetalBond installed there and no other.
pub proof fn lemma_cleanup_exact(routes: Seq<KernelRoute>, table: u32, i: int)
    requires
        0 <= i < routes.len() <= usize::MAX,
    ensures
        spec_stale_routes(routes, table).contains(i as usize) <==> routes[i].spec_is_stale(table),
        spec_stale_routes(routes, table).contains(i as usize) <==> routes[i].protocol
            == METALBOND_RT_PROTO && (routes[i].header_table == table
            || routes[i].tables@.contains(table)),
    decreases routes.len(),
{
    let fewer = routes.drop_last();
    let last = (routes.len() - 1) as usize;
    lemma_stale_below(fewer, table);
    crate::members::lemma_push_contains(spec_stale_routes(fewer, table), last, i as usize);
    if i < routes.len() - 1 {
        lemma_cleanup_exact(fewer, table, i);
    } else if spec_stale_routes(fewer, table).contains(last) {
        let j = spec_stale_routes(fewer, table).index_of(last);
        assert(spec_stale_routes(fewer, table)[j] < fewer.len());
    }
}

proof fn lemma_stale_below(routes: Seq<KernelRoute>, table: u32)
    requires
        routes.len() <= usize::MAX,
    ensures
        forall|j: int|
            0 <= j < spec_stale_routes(routes, table).len() ==> #[trigger] spec_stale_routes(
                routes,
                table,
            )[j] < routes.len(),
    decreases routes.len(),
{
    if routes.len() > 0 {
        let fewer = spec_stale_routes(routes.drop_last(), table);
        lemma_stale_below(routes.drop_last(), table);
        assert forall|j: int|
            0 <= j < spec_stale_routes(routes, table).len() implies #[trigger] spec_stale_routes(
            routes,
            table,
        )[j] < routes.len() by {
            if j < fewer.len() {
                assert(spec_stale_routes(routes, table)[j] == fewer[j]);
            }
        }
    }
}

/// A route that was installed for a destination is found again: the kernel's report of it matches
/// the destination and the table of the request.
pub proof fn lemma_installed_route_found(request: RouteRequest, route: KernelRoute)
    requires
        request.protocol == METALBOND_RT_PROTO,
        route.protocol == request.protocol,
        route.header_table == request.table || route.tables@.contains(request.table),
        match request.destination.prefix {
            IpNet::V4(net) => route.destinations@.contains(IpAddr::V4(net.addr))
                && route.prefix_length == net.prefix_len,
            IpNet::V6(net) => route.destinations@.contains(IpAddr::V6(net.addr))
                && route.prefix_length == net.prefix_len,
        },
    ensures
        route.spec_matches(request.destination, request.table),
        route.spec_is_stale(request.table),
{
}

} // verus!
