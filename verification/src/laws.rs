//! What holds of the checks whatever the snapshot is.

use vstd::prelude::*;
use crate::dns::{AliasView, DnsView, first_user};
use crate::groups::{GroupView, SUBNETS_PER_ZONE, crowded_groups, group_size, is_crowded_listing};
use crate::groups::{lemma_crowded_groups_listed, lemma_crowded_groups_reordered};
use crate::groups::{lemma_crowded_listing_unique, listing_keys};
use crate::network::{CLUSTER_TAG, NetworkView, PRIVATE_ELB_TAG, PUBLIC_ELB_TAG};
use crate::network::{foreign_owned_key, incorrect_cluster_tag, is_foreign_owned, key_holds};
use crate::network::{missing_cluster_tag, missing_private_elb_tag, missing_public_elb_tag};
use crate::network::{names_cluster, only_if, own_tag_key, some_key_holds, subnet_count_finding};
use crate::resources::{RouteTableView, RouteView, SubnetView, TagView};
use crate::text::{occurs_at, occurs_in};
use crate::topology::{first_table, has_table, is_default_route, is_first_table};
use crate::topology::{is_internet_route, lemma_first_table_unique, references, table_positions};
use crate::topology::{routes_of, routes_private, routes_public};
use crate::types::Severity;

verus! {

/// The count of subnets flags exactly the groups that hold more subnets than
/// expected, and warns exactly where there is such a group.
pub proof fn lemma_flags_exactly_crowded(subnets: Seq<SubnetView>, listing: Seq<GroupView>)
    requires
        is_crowded_listing(subnets, listing),
    ensures
        forall|key: (Seq<char>, Seq<char>)| #[trigger]
            listing_keys(listing).contains(key) <==> group_size(subnets, key) > SUBNETS_PER_ZONE,
        subnet_count_finding(listing).severity == Severity::Warning <==> exists|
            key: (Seq<char>, Seq<char>),
        |
            group_size(subnets, key) > SUBNETS_PER_ZONE,
        subnet_count_finding(listing).severity == Severity::Okay <==> forall|
            key: (Seq<char>, Seq<char>),
        |
            group_size(subnets, key) <= SUBNETS_PER_ZONE,
{
    let keys = listing_keys(listing);
    assert forall|key: (Seq<char>, Seq<char>)| #[trigger]
        keys.contains(key) implies group_size(subnets, key) > SUBNETS_PER_ZONE by {
        let a = keys.index_of(key);
        assert(listing[a].key() == key);
    }
    if listing.len() > 0 {
        assert(keys[0] == listing[0].key());
        assert(group_size(subnets, listing[0].key()) > SUBNETS_PER_ZONE);
    } else {
        assert forall|key: (Seq<char>, Seq<char>)| group_size(subnets, key)
            <= SUBNETS_PER_ZONE by {
            if group_size(subnets, key) > SUBNETS_PER_ZONE {
                assert(keys.contains(key));
            }
        }
    }
}

/// The finding of the count of subnets does not depend on the order in which
/// the subnets are given.
pub proof fn lemma_subnet_count_reordered(network: NetworkView, reordered: NetworkView)
    requires
        network.subnets.to_multiset() == reordered.subnets.to_multiset(),
    ensures
        reordered.crowded_groups() == network.crowded_groups(),
        reordered.subnet_count_finding() == network.subnet_count_finding(),
{
    lemma_crowded_groups_reordered(network.subnets, reordered.subnets);
}

/// The count of subnets reports a listing of exactly the crowded groups.
pub proof fn lemma_subnet_count_lists_crowded(network: NetworkView)
    ensures
        is_crowded_listing(network.subnets, network.crowded_groups()),
{
    lemma_crowded_groups_listed(network.subnets);
}

/// The groups that the count of subnets reports are determined by the
/// subnets: any listing that meets the description is the one reported.
pub proof fn lemma_subnet_count_determined(network: NetworkView, listing: Seq<GroupView>)
    requires
        is_crowded_listing(network.subnets, listing),
    ensures
        network.crowded_groups() == listing,
        network.subnet_count_finding() == subnet_count_finding(listing),
{
    lemma_crowded_listing_unique(network.subnets, listing);
}

/// A subnet without tags is reported as missing the tag of the cluster, and
/// as missing the tag for load balancers of each class that it is in. It is
/// never reported as in order. Where it is in exactly one class, that makes
/// two findings.
pub proof fn lemma_untagged_subnet(network: NetworkView, subnet: SubnetView)
    requires
        subnet.tags.len() == 0,
    ensures
        network.findings_of_subnet(subnet) == seq![
            missing_cluster_tag(subnet.subnet_id, network.cluster.cluster_infra_name),
        ] + only_if(
            network.is_private(subnet.subnet_id),
            missing_private_elb_tag(subnet.subnet_id),
        ) + only_if(network.is_public(subnet.subnet_id), missing_public_elb_tag(subnet.subnet_id)),
        forall|k: int|
            0 <= k < network.findings_of_subnet(subnet).len() ==> (
            #[trigger] network.findings_of_subnet(subnet)[k]).severity == Severity::Info,
        network.is_private(subnet.subnet_id) != network.is_public(subnet.subnet_id)
            ==> network.findings_of_subnet(subnet).len() == 2,
{
    let cluster = network.cluster;
    assert(foreign_owned_key(subnet.tags, cluster.cluster_id, cluster.cluster_infra_name) is None);
    let found = network.findings_of_subnet(subnet);
    let wanted = seq![missing_cluster_tag(subnet.subnet_id, cluster.cluster_infra_name)] + only_if(
        network.is_private(subnet.subnet_id),
        missing_private_elb_tag(subnet.subnet_id),
    ) + only_if(network.is_public(subnet.subnet_id), missing_public_elb_tag(subnet.subnet_id));
    assert(found =~= wanted);
}

/// The key of the last tag that claims the subnet for another cluster is the
/// one that is reported.
pub proof fn lemma_last_foreign_owned(
    tags: Seq<TagView>,
    cluster_id: Seq<char>,
    infra_name: Seq<char>,
    at: int,
)
    requires
        0 <= at < tags.len(),
        is_foreign_owned(tags[at], cluster_id, infra_name),
        forall|j: int| at < j < tags.len() ==> !is_foreign_owned(#[trigger] tags[j], cluster_id, infra_name),
    ensures
        foreign_owned_key(tags, cluster_id, infra_name) == tags[at].key,
    decreases tags.len(),
{
    if at < tags.len() - 1 {
        assert(!is_foreign_owned(tags[tags.len() - 1], cluster_id, infra_name));
        let front = tags.drop_last();
        assert(front[at] == tags[at]);
        assert forall|j: int| at < j < front.len() implies !is_foreign_owned(
            #[trigger] front[j],
            cluster_id,
            infra_name,
        ) by {
            assert(front[j] == tags[j]);
        }
        lemma_last_foreign_owned(front, cluster_id, infra_name, at);
    }
}

/// Where no tag claims the subnet for another cluster, none is reported.
pub proof fn lemma_no_foreign_owned(tags: Seq<TagView>, cluster_id: Seq<char>, infra_name: Seq<char>)
    requires
        forall|j: int| 0 <= j < tags.len() ==> !is_foreign_owned(#[trigger] tags[j], cluster_id, infra_name),
    ensures
        foreign_owned_key(tags, cluster_id, infra_name) is None,
    decreases tags.len(),
{
    if tags.len() > 0 {
        assert(!is_foreign_owned(tags[tags.len() - 1], cluster_id, infra_name));
        let front = tags.drop_last();
        assert forall|j: int| 0 <= j < front.len() implies !is_foreign_owned(
            #[trigger] front[j],
            cluster_id,
            infra_name,
        ) by {
            assert(front[j] == tags[j]);
        }
        lemma_no_foreign_owned(front, cluster_id, infra_name);
    }
}

/// A text put after the same beginning gives the same whole only where it
/// is the same text.
pub proof fn lemma_same_start_same_rest(start: Seq<char>, a: Seq<char>, b: Seq<char>)
    requires
        start + a == start + b,
    ensures
        a == b,
{
    let n = start.len() as int;
    assert((start + a).subrange(n, n + a.len()) =~= a);
    assert((start + b).subrange(n, n + b.len()) =~= b);
    assert((start + a).len() == n + a.len());
    assert((start + b).len() == n + b.len());
}

/// A tag `kubernetes.io/cluster/<other>` of value `owned`, where `<other>` is
/// neither the identifier nor the infra name of the cluster, claims the
/// subnet for another cluster.
pub proof fn lemma_other_cluster_is_foreign(
    tag: TagView,
    other: Seq<char>,
    cluster_id: Seq<char>,
    infra_name: Seq<char>,
)
    requires
        tag.key == Some(own_tag_key(other)),
        tag.value == Some("owned"@),
        other != cluster_id,
        other != infra_name,
    ensures
        is_foreign_owned(tag, cluster_id, infra_name),
{
    let key = own_tag_key(other);
    assert(occurs_at(CLUSTER_TAG@, key, 0)) by {
        assert(key.subrange(0, CLUSTER_TAG@.len() as int) =~= CLUSTER_TAG@);
    }
    if key == own_tag_key(cluster_id) {
        lemma_same_start_same_rest(CLUSTER_TAG@, other, cluster_id);
    }
    if key == own_tag_key(infra_name) {
        lemma_same_start_same_rest(CLUSTER_TAG@, other, infra_name);
    }
}

/// The cluster's own tags, by identifier or by infra name, never claim the
/// subnet for another cluster, whatever their value.
pub proof fn lemma_own_tag_is_not_foreign(tag: TagView, cluster_id: Seq<char>, infra_name: Seq<char>)
    requires
        tag.key == Some(own_tag_key(cluster_id)) || tag.key == Some(own_tag_key(infra_name)),
    ensures
        !is_foreign_owned(tag, cluster_id, infra_name),
{
}

/// A subnet with a tag `kubernetes.io/cluster/<other>` of value `owned`,
/// where `<other>` is neither the identifier nor the infra name of the
/// cluster, gets exactly one critical finding, and that names the key. It
/// comes first, is followed only by what is found on the tags for load
/// balancers, and the subnet is reported neither as in order nor as missing
/// the tag of a cluster. Where several tags are of this kind, the last one
/// is named.
pub proof fn lemma_foreign_owned_tag_is_critical(
    network: NetworkView,
    subnet: SubnetView,
    at: int,
    other: Seq<char>,
)
    requires
        0 <= at < subnet.tags.len(),
        subnet.tags[at].key == Some(own_tag_key(other)),
        subnet.tags[at].value == Some("owned"@),
        other != network.cluster.cluster_id,
        other != network.cluster.cluster_infra_name,
        forall|j: int|
            at < j < subnet.tags.len() ==> !is_foreign_owned(
                #[trigger] subnet.tags[j],
                network.cluster.cluster_id,
                network.cluster.cluster_infra_name,
            ),
    ensures
        network.findings_of_subnet(subnet) == seq![
            incorrect_cluster_tag(subnet.subnet_id, own_tag_key(other)),
        ] + only_if(
            network.is_private(subnet.subnet_id) && !some_key_holds(subnet.tags, PRIVATE_ELB_TAG@),
            missing_private_elb_tag(subnet.subnet_id),
        ) + only_if(
            network.is_public(subnet.subnet_id) && !some_key_holds(subnet.tags, PUBLIC_ELB_TAG@),
            missing_public_elb_tag(subnet.subnet_id),
        ),
        network.findings_of_subnet(subnet)[0].severity == Severity::Critical,
        forall|q: int|
            0 < q < network.findings_of_subnet(subnet).len() ==> (
            #[trigger] network.findings_of_subnet(subnet)[q]).severity == Severity::Info,
{
    let cluster = network.cluster;
    let key = own_tag_key(other);
    lemma_other_cluster_is_foreign(
        subnet.tags[at],
        other,
        cluster.cluster_id,
        cluster.cluster_infra_name,
    );
    assert(some_key_holds(subnet.tags, CLUSTER_TAG@)) by {
        assert(key_holds(subnet.tags[at], CLUSTER_TAG@));
    }
    lemma_last_foreign_owned(subnet.tags, cluster.cluster_id, cluster.cluster_infra_name, at);
    let found = network.findings_of_subnet(subnet);
    let id = subnet.subnet_id;
    let third = only_if(
        network.is_private(id) && !some_key_holds(subnet.tags, PRIVATE_ELB_TAG@),
        missing_private_elb_tag(id),
    );
    let fourth = only_if(
        network.is_public(id) && !some_key_holds(subnet.tags, PUBLIC_ELB_TAG@),
        missing_public_elb_tag(id),
    );
    assert(found =~= seq![incorrect_cluster_tag(id, key)] + third + fourth);
}

/// A subnet whose cluster tags all have the value `shared` gets no critical
/// finding: that the subnet is shared with another cluster is tolerated.
pub proof fn lemma_shared_tags_tolerated(network: NetworkView, subnet: SubnetView)
    requires
        forall|k: int|
            0 <= k < subnet.tags.len() && names_cluster(#[trigger] subnet.tags[k])
                ==> subnet.tags[k].value == Some("shared"@),
    ensures
        forall|p: int|
            0 <= p < network.findings_of_subnet(subnet).len() ==> (
            #[trigger] network.findings_of_subnet(subnet)[p]).severity != Severity::Critical,
{
    let cluster = network.cluster;
    reveal_strlit("shared");
    reveal_strlit("owned");
    assert("shared"@.len() != "owned"@.len());
    assert forall|j: int| 0 <= j < subnet.tags.len() implies !is_foreign_owned(
        #[trigger] subnet.tags[j],
        cluster.cluster_id,
        cluster.cluster_infra_name,
    ) by {}
    lemma_no_foreign_owned(subnet.tags, cluster.cluster_id, cluster.cluster_infra_name);
}

/// A public subnet has a route table, and in it a default route with a
/// gateway.
pub proof fn lemma_public_needs_gateway_route(network: NetworkView, subnet_id: Seq<char>)
    requires
        network.is_public(subnet_id),
    ensures
        network.association_index().dom().contains(subnet_id),
        exists|k: int|
            0 <= k < network.association_index()[subnet_id].routes.len() && is_default_route(
                #[trigger] network.association_index()[subnet_id].routes[k],
            ) && network.association_index()[subnet_id].routes[k].gateway_id is Some,
{
    let routes = routes_of(network.positions(), network.tables, subnet_id);
    let k = choose|k: int| 0 <= k < routes.len() && is_internet_route(#[trigger] routes[k]);
    assert(is_default_route(network.association_index()[subnet_id].routes[k]));
}

/// Taking away the one default route through an internet gateway makes the
/// routes no longer public; where no other default route is left, it makes
/// them private.
pub proof fn lemma_removing_internet_route(routes: Seq<RouteView>, at: int)
    requires
        0 <= at < routes.len(),
        is_internet_route(routes[at]),
        forall|j: int| 0 <= j < routes.len() && j != at ==> !is_internet_route(#[trigger] routes[j]),
    ensures
        routes_public(routes),
        !routes_public(routes.remove(at)),
        (forall|j: int| 0 <= j < routes.len() && j != at ==> !is_default_route(#[trigger] routes[j]))
            ==> routes_private(routes.remove(at)),
{
    let rest = routes.remove(at);
    assert forall|k: int| 0 <= k < rest.len() implies !is_internet_route(#[trigger] rest[k]) by {
        if k < at {
            assert(rest[k] == routes[k]);
        } else {
            assert(rest[k] == routes[k + 1]);
        }
    }
    if forall|j: int| 0 <= j < routes.len() && j != at ==> !is_default_route(#[trigger] routes[j]) {
        assert forall|k: int| 0 <= k < rest.len() implies !is_default_route(#[trigger] rest[k]) by {
            if k < at {
                assert(rest[k] == routes[k]);
            } else {
                assert(rest[k] == routes[k + 1]);
            }
        }
    }
}

/// Route tables that differ only in their routes serve the same subnets.
pub proof fn lemma_positions_follow_associations(
    subnets: Seq<SubnetView>,
    tables: Seq<RouteTableView>,
    changed: Seq<RouteTableView>,
)
    requires
        tables.len() == changed.len(),
        forall|k: int|
            0 <= k < tables.len() ==> (#[trigger] tables[k]).associations
                == changed[k].associations,
    ensures
        table_positions(subnets, tables) == table_positions(subnets, changed),
{
    assert forall|id: Seq<char>, at: int|
        is_first_table(tables, id, at) == is_first_table(changed, id, at) by {
        if 0 <= at < tables.len() {
            assert(references(tables[at], id) == references(changed[at], id));
            assert forall|k: int| 0 <= k < at implies references(#[trigger] tables[k], id)
                == references(changed[k], id) by {}
            if is_first_table(tables, id, at) {
                assert forall|k: int| 0 <= k < at implies !references(
                    #[trigger] changed[k],
                    id,
                ) by {
                    assert(!references(tables[k], id));
                }
            }
            if is_first_table(changed, id, at) {
                assert forall|k: int| 0 <= k < at implies !references(
                    #[trigger] tables[k],
                    id,
                ) by {
                    assert(!references(changed[k], id));
                }
            }
        }
    }
    let before = table_positions(subnets, tables);
    let after = table_positions(subnets, changed);
    assert forall|id: Seq<char>| before.dom().contains(id) == after.dom().contains(id) by {
        if has_table(tables, id) {
            let at = first_table(tables, id);
            assert(is_first_table(changed, id, at));
        }
        if has_table(changed, id) {
            let at = first_table(changed, id);
            assert(is_first_table(tables, id, at));
        }
    }
    assert forall|id: Seq<char>| before.dom().contains(id) implies before[id] == after[id] by {
        let at = first_table(tables, id);
        assert(is_first_table(changed, id, at));
        lemma_first_table_unique(changed, id, at, first_table(changed, id));
    }
    assert(before =~= after);
}

/// Taking the one default route through an internet gateway out of the
/// route table of a public subnet makes the subnet no longer public; where
/// the table is left without default route, the subnet is private.
pub proof fn lemma_removing_route_flips_subnet(
    network: NetworkView,
    changed: NetworkView,
    subnet_id: Seq<char>,
    at: int,
)
    requires
        network.positions().dom().contains(subnet_id),
        0 <= at < network.association_index()[subnet_id].routes.len(),
        is_internet_route(network.association_index()[subnet_id].routes[at]),
        forall|j: int|
            0 <= j < network.association_index()[subnet_id].routes.len() && j != at
                ==> !is_internet_route(#[trigger] network.association_index()[subnet_id].routes[j]),
        changed.subnets == network.subnets,
        changed.tables == network.tables.update(
            network.positions()[subnet_id],
            RouteTableView {
                routes: network.association_index()[subnet_id].routes.remove(at),
                ..network.association_index()[subnet_id]
            },
        ),
    ensures
        network.is_public(subnet_id),
        !changed.is_public(subnet_id),
        (forall|j: int|
            0 <= j < network.association_index()[subnet_id].routes.len() && j != at
                ==> !is_default_route(#[trigger] network.association_index()[subnet_id].routes[j]))
            ==> changed.is_private(subnet_id),
{
    let position = network.positions()[subnet_id];
    assert(has_table(network.tables, subnet_id));
    assert(is_first_table(network.tables, subnet_id, position));
    lemma_positions_follow_associations(network.subnets, network.tables, changed.tables);
    let routes = network.tables[position].routes;
    assert(routes_of(changed.positions(), changed.tables, subnet_id) == routes.remove(at));
    lemma_removing_internet_route(routes, at);
}

/// A subnet without route table is private and not public.
pub proof fn lemma_unrouted_subnet_is_private(network: NetworkView, subnet_id: Seq<char>)
    requires
        !network.association_index().dom().contains(subnet_id),
    ensures
        network.is_private(subnet_id),
        !network.is_public(subnet_id),
{
}

/// Where the target of some alias record holds the DNS name, a record that
/// uses it is found.
pub proof fn lemma_user_found(aliases: Seq<AliasView>, dns_name: Seq<char>, at: int)
    requires
        0 <= at < aliases.len(),
        occurs_in(dns_name, aliases[at].target),
    ensures
        first_user(aliases, dns_name) is Some,
    decreases aliases.len(),
{
    if at > 0 && !occurs_in(dns_name, aliases[0].target) {
        assert(aliases.drop_first()[at - 1] == aliases[at]);
        lemma_user_found(aliases.drop_first(), dns_name, at - 1);
    }
}

/// A load balancer whose DNS name occurs in the target of an alias record is
/// reported as used, not as unused.
pub proof fn lemma_used_load_balancer(dns: DnsView, lb: int, alias: int)
    requires
        0 <= lb < dns.load_balancers.len(),
        0 <= alias < dns.aliases().len(),
        occurs_in(dns.load_balancers[lb].dns_name(), dns.aliases()[alias].target),
    ensures
        dns.usage_findings().len() == dns.load_balancers.len(),
        dns.usage_findings()[lb].severity == Severity::Okay,
{
    lemma_user_found(dns.aliases(), dns.load_balancers[lb].dns_name(), alias);
}

} // verus!
