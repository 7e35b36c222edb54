//! Which route table serves which subnet, and what its routes say of the
//! subnet: whether it is reachable from outside, or only reaches out.

use vstd::prelude::*;
use crate::resources::{Route, RouteTable, RouteTableView, RouteView, Subnet, SubnetView};
use crate::resources::{subnet_views, table_views};
use crate::text::{same_text, starts_with};

verus! {

/// The destination that marks a default route.
pub const DEFAULT_ROUTE: &'static str = "0.0.0.0/0";

/// How the identifier of an internet gateway begins.
pub const INTERNET_GATEWAY_PREFIX: &'static str = "igw-";

/// One of the associations of `table` names the subnet `subnet_id`.
pub open spec fn references(table: RouteTableView, subnet_id: Seq<char>) -> bool {
    exists|k: int|
        0 <= k < table.associations.len() && (#[trigger] table.associations[k]).subnet_id == Some(
            subnet_id,
        )
}

/// `tables[at]` names the subnet and no table before it does.
pub open spec fn is_first_table(tables: Seq<RouteTableView>, subnet_id: Seq<char>, at: int) -> bool {
    &&& 0 <= at < tables.len()
    &&& references(tables[at], subnet_id)
    &&& forall|k: int| 0 <= k < at ==> !references(#[trigger] tables[k], subnet_id)
}

/// Some table names the subnet.
pub open spec fn has_table(tables: Seq<RouteTableView>, subnet_id: Seq<char>) -> bool {
    exists|at: int| is_first_table(tables, subnet_id, at)
}

/// The position of the first table that names the subnet, where there is one.
pub open spec fn first_table(tables: Seq<RouteTableView>, subnet_id: Seq<char>) -> int {
    choose|at: int| is_first_table(tables, subnet_id, at)
}

/// One of `subnets` has the identifier `subnet_id`.
pub open spec fn names_subnet(subnets: Seq<SubnetView>, subnet_id: Seq<char>) -> bool {
    exists|i: int| 0 <= i < subnets.len() && (#[trigger] subnets[i]).subnet_id == subnet_id
}

/// For each subnet that some table names, the position of the first such
/// table, in the order in which the tables were given. A subnet that no table
/// names has no entry.
pub open spec fn table_positions(subnets: Seq<SubnetView>, tables: Seq<RouteTableView>) -> Map<
    Seq<char>,
    int,
> {
    Map::new(
        |id: Seq<char>| names_subnet(subnets, id) && has_table(tables, id),
        |id: Seq<char>| first_table(tables, id),
    )
}

/// The routes that govern the subnet: those of its table, none where it has
/// no table.
pub open spec fn routes_of(
    positions: Map<Seq<char>, int>,
    tables: Seq<RouteTableView>,
    subnet_id: Seq<char>,
) -> Seq<RouteView> {
    if positions.dom().contains(subnet_id) {
        tables[positions[subnet_id]].routes
    } else {
        Seq::empty()
    }
}

/// The route is a default route.
pub open spec fn is_default_route(route: RouteView) -> bool {
    route.destination_cidr_block == Some(DEFAULT_ROUTE@)
}

/// The route is a default route through an internet gateway.
pub open spec fn is_internet_route(route: RouteView) -> bool {
    &&& is_default_route(route)
    &&& route.gateway_id matches Some(gateway)
    &&& INTERNET_GATEWAY_PREFIX@.is_prefix_of(gateway)
}

/// The route is a default route through a NAT gateway.
pub open spec fn is_nat_route(route: RouteView) -> bool {
    is_default_route(route) && route.nat_gateway_id is Some
}

/// Public: some default route leads through an internet gateway.
pub open spec fn routes_public(routes: Seq<RouteView>) -> bool {
    exists|k: int| 0 <= k < routes.len() && is_internet_route(#[trigger] routes[k])
}

/// Private: there is no default route at all, or one through a NAT gateway.
/// The two classes are judged apart: routes can be both, or neither.
pub open spec fn routes_private(routes: Seq<RouteView>) -> bool {
    ||| forall|k: int| 0 <= k < routes.len() ==> !is_default_route(#[trigger] routes[k])
    ||| exists|k: int| 0 <= k < routes.len() && is_nat_route(#[trigger] routes[k])
}

/// Two positions that are both the first for a subnet are the same one.
pub proof fn lemma_first_table_unique(
    tables: Seq<RouteTableView>,
    subnet_id: Seq<char>,
    a: int,
    b: int,
)
    requires
        is_first_table(tables, subnet_id, a),
        is_first_table(tables, subnet_id, b),
    ensures
        a == b,
{
    if a < b {
        assert(!references(tables[a], subnet_id));
    } else if b < a {
        assert(!references(tables[b], subnet_id));
    }
}

fn is_default(route: &Route) -> (b: bool)
    ensures
        b == is_default_route(route@),
{
    match &route.destination_cidr_block {
        Some(destination) => same_text(destination, DEFAULT_ROUTE),
        None => false,
    }
}

fn is_internet(route: &Route) -> (b: bool)
    ensures
        b == is_internet_route(route@),
{
    if !is_default(route) {
        return false;
    }
    match &route.gateway_id {
        Some(gateway) => starts_with(gateway.as_str(), INTERNET_GATEWAY_PREFIX),
        None => false,
    }
}

/// Whether the routes make a subnet public.
pub fn classify_public(routes: &Vec<Route>) -> (public: bool)
    ensures
        public == routes_public(routes@.map_values(|r: Route| r@)),
{
    let ghost views = routes@.map_values(|r: Route| r@);
    let mut k: usize = 0;
    while k < routes.len()
        invariant
            k <= routes.len(),
            views == routes@.map_values(|r: Route| r@),
            forall|j: int| 0 <= j < k ==> !is_internet_route(#[trigger] views[j]),
        decreases routes.len() - k,
    {
        if is_internet(&routes[k]) {
            assert(is_internet_route(views[k as int]));
            return true;
        }
        k = k + 1;
    }
    false
}

/// Whether the routes make a subnet private.
pub fn classify_private(routes: &Vec<Route>) -> (private: bool)
    ensures
        private == routes_private(routes@.map_values(|r: Route| r@)),
{
    let ghost views = routes@.map_values(|r: Route| r@);
    let mut any_default = false;
    let mut k: usize = 0;
    while k < routes.len()
        invariant
            k <= routes.len(),
            views == routes@.map_values(|r: Route| r@),
            forall|j: int| 0 <= j < k ==> !is_nat_route(#[trigger] views[j]),
            any_default == exists|j: int| 0 <= j < k && is_default_route(#[trigger] views[j]),
        decreases routes.len() - k,
    {
        if is_default(&routes[k]) {
            assert(is_default_route(views[k as int]));
            if routes[k].nat_gateway_id.is_some() {
                assert(is_nat_route(views[k as int]));
                return true;
            }
            any_default = true;
        }
        k = k + 1;
    }
    !any_default
}

/// Whether one of the associations of `table` names the subnet.
pub fn references_subnet(table: &RouteTable, subnet_id: &String) -> (found: bool)
    ensures
        found == references(table@, subnet_id@),
{
    let mut k: usize = 0;
    while k < table.associations.len()
        invariant
            k <= table.associations.len(),
            forall|j: int| 0 <= j < k ==> (#[trigger] table@.associations[j]).subnet_id != Some(
                subnet_id@,
            ),
        decreases table.associations.len() - k,
    {
        let hit = match &table.associations[k].subnet_id {
            Some(id) => *id == *subnet_id,
            None => false,
        };
        if hit {
            assert(table@.associations[k as int].subnet_id == Some(subnet_id@));
            return true;
        }
        k = k + 1;
    }
    false
}

/// The position of the first table that names the subnet.
pub fn find_first_table(tables: &Vec<RouteTable>, subnet_id: &String) -> (found: Option<usize>)
    ensures
        match found {
            Some(at) => is_first_table(table_views(tables@), subnet_id@, at as int),
            None => !has_table(table_views(tables@), subnet_id@),
        },
{
    let ghost views = table_views(tables@);
    let mut at: usize = 0;
    while at < tables.len()
        invariant
            at <= tables.len(),
            views == table_views(tables@),
            forall|k: int| 0 <= k < at ==> !references(#[trigger] views[k], subnet_id@),
        decreases tables.len() - at,
    {
        if references_subnet(&tables[at], subnet_id) {
            return Some(at);
        }
        at = at + 1;
    }
    None
}

/// One entry of the index: a subnet and the position of its route table.
#[derive(Debug, Clone, PartialEq, Eq)]
pub struct SubnetRouteTable {
    pub subnet_id: String,
    pub table: usize,
}

/// The association of subnets with route tables, derived once from both
/// lists. Each subnet identifier stands in it at most once.
#[derive(Debug)]
pub struct AssociationIndex {
    entries: Vec<SubnetRouteTable>,
}

/// The subnet identifiers of `entries`, in order.
pub open spec fn entry_keys(entries: Seq<SubnetRouteTable>) -> Seq<Seq<char>> {
    entries.map_values(|e: SubnetRouteTable| e.subnet_id@)
}

fn position(entries: &Vec<SubnetRouteTable>, subnet_id: &String) -> (found: Option<usize>)
    ensures
        match found {
            Some(e) => e < entries@.len() && entry_keys(entries@)[e as int] == subnet_id@,
            None => !entry_keys(entries@).contains(subnet_id@),
        },
{
    let mut e: usize = 0;
    while e < entries.len()
        invariant
            e <= entries.len(),
            forall|j: int| 0 <= j < e ==> #[trigger] entry_keys(entries@)[j] != subnet_id@,
        decreases entries.len() - e,
    {
        if entries[e].subnet_id == *subnet_id {
            return Some(e);
        }
        e = e + 1;
    }
    None
}

impl View for AssociationIndex {
    type V = Map<Seq<char>, int>;

    closed spec fn view(&self) -> Map<Seq<char>, int> {
        Map::new(
            |id: Seq<char>| self.keys().contains(id),
            |id: Seq<char>| self.entries@[self.keys().index_of(id)].table as int,
        )
    }
}

impl AssociationIndex {
    /// The subnet identifiers of the entries, in order.
    closed spec fn keys(&self) -> Seq<Seq<char>> {
        entry_keys(self.entries@)
    }

    #[verifier::type_invariant]
    closed spec fn distinct(&self) -> bool {
        self.keys().no_duplicates()
    }

    /// The position of the route table of the subnet, where it has one.
    pub fn get(&self, subnet_id: &String) -> (found: Option<usize>)
        ensures
            match found {
                Some(at) => self@.dom().contains(subnet_id@) && self@[subnet_id@] == at,
                None => !self@.dom().contains(subnet_id@),
            },
    {
        proof {
            use_type_invariant(self);
        }
        match position(&self.entries, subnet_id) {
            Some(e) => {
                assert(self.keys().contains(subnet_id@));
                assert(self.keys().index_of(subnet_id@) == e as int);
                Some(self.entries[e].table)
            },
            None => None,
        }
    }

    /// The number of subnets that have a route table.
    pub fn len(&self) -> (n: usize)
        ensures
            self@.dom().finite(),
            n == self@.dom().len(),
    {
        proof {
            use_type_invariant(self);
            self.keys().unique_seq_to_set();
            assert(self@.dom() =~= self.keys().to_set());
        }
        self.entries.len()
    }

    /// Builds the index: each subnet is paired with the first table, in the
    /// order given, that names it.
    pub fn build(subnets: &Vec<Subnet>, tables: &Vec<RouteTable>) -> (index: AssociationIndex)
        ensures
            index@ == table_positions(subnet_views(subnets@), table_views(tables@)),
    {
        let ghost sv = subnet_views(subnets@);
        let ghost tv = table_views(tables@);
        let mut entries: Vec<SubnetRouteTable> = Vec::new();
        let mut i: usize = 0;
        while i < subnets.len()
            invariant
                i <= subnets.len(),
                sv == subnet_views(subnets@),
                tv == table_views(tables@),
                entry_keys(entries@).no_duplicates(),
                forall|e: int|
                    0 <= e < entries@.len() ==> is_first_table(
                        tv,
                        #[trigger] entry_keys(entries@)[e],
                        entries@[e].table as int,
                    ),
                forall|e: int|
                    0 <= e < entries@.len() ==> names_subnet(
                        sv.take(i as int),
                        #[trigger] entry_keys(entries@)[e],
                    ),
                forall|k: int|
                    0 <= k < i && has_table(tv, (#[trigger] sv[k]).subnet_id)
                        ==> entry_keys(entries@).contains(sv[k].subnet_id),
            decreases subnets.len() - i,
        {
            let id = &subnets[i].subnet_id;
            assert(sv[i as int].subnet_id == id@);
            let ghost before = entry_keys(entries@);
            proof {
                assert forall|e: int| 0 <= e < before.len() implies names_subnet(
                    sv.take(i + 1),
                    #[trigger] before[e],
                ) by {
                    let w = choose|w: int|
                        0 <= w < sv.take(i as int).len() && (#[trigger] sv.take(
                            i as int,
                        )[w]).subnet_id == before[e];
                    assert(sv.take(i + 1)[w].subnet_id == before[e]);
                }
            }
            let known = position(&entries, id);
            if known.is_none() {
                match find_first_table(tables, id) {
                    Some(at) => {
                        entries.push(SubnetRouteTable { subnet_id: id.clone(), table: at });
                        proof {
                            assert(entry_keys(entries@) =~= before.push(id@));
                            assert(sv.take(i + 1)[i as int].subnet_id == id@);
                            assert forall|k: int|
                                0 <= k < i + 1 && has_table(
                                    tv,
                                    (#[trigger] sv[k]).subnet_id,
                                ) implies entry_keys(entries@).contains(sv[k].subnet_id) by {
                                if k < i {
                                    let e = before.index_of(sv[k].subnet_id);
                                    assert(entry_keys(entries@)[e] == sv[k].subnet_id);
                                } else {
                                    assert(entry_keys(entries@)[before.len() as int] == id@);
                                }
                            }
                        }
                    },
                    None => {},
                }
            } else {
                assert(entry_keys(entries@).contains(id@));
            }
            i = i + 1;
        }
        let index = AssociationIndex { entries };
        proof {
            assert(sv.take(i as int) =~= sv);
            let target = table_positions(sv, tv);
            assert forall|id: Seq<char>| index@.dom().contains(id) <==> target.dom().contains(
                id,
            ) by {
                if index.keys().contains(id) {
                    let e = index.keys().index_of(id);
                    assert(is_first_table(tv, index.keys()[e], index.entries@[e].table as int));
                }
                if names_subnet(sv, id) && has_table(tv, id) {
                    let k = choose|k: int| 0 <= k < sv.len() && (#[trigger] sv[k]).subnet_id == id;
                    assert(index.keys().contains(sv[k].subnet_id));
                }
            }
            assert forall|id: Seq<char>| index@.dom().contains(id) implies index@[id]
                == target[id] by {
                let e = index.keys().index_of(id);
                assert(is_first_table(tv, index.keys()[e], index.entries@[e].table as int));
                lemma_first_table_unique(
                    tv,
                    id,
                    index.entries@[e].table as int,
                    first_table(tv, id),
                );
            }
            assert(index@ =~= target);
        }
        index
    }
}

} // verus!
