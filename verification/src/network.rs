//! Checks of the cluster's network: tags of subnets, subnets of load
//! balancers and of their network interfaces.

use vstd::prelude::*;
use vstd::string::StringExecFns;
use crate::groups::{GroupView, SubnetGroup, crowded_groups, find_crowded_groups, group_views};
use crate::groups::is_crowded_listing;
use crate::resources::{AWSLoadBalancer, LoadBalancerView, NetworkInterface, NetworkInterfaceView};
use crate::resources::{NetworkLoadBalancer, NetworkLoadBalancerView, RouteTable, RouteTableView};
use crate::resources::{Subnet, SubnetView, Tag, TagView};
use crate::resources::{interface_views, load_balancer_views, subnet_views, table_views, tag_views};
use crate::text::{contains, decimal, decimal_text, join, joined, occurs_in, same_text};
use crate::topology::{AssociationIndex, classify_private, classify_public, first_table, has_table};
use crate::topology::{is_first_table, names_subnet, routes_of, routes_private, routes_public};
use crate::topology::table_positions;
use crate::types::{ClusterInfoView, MinimalClusterInfo, ResultView, Severity, VerificationResult};
use crate::types::{Verifier, extend_results, result_views};

verus! {

/// The tag key that marks a subnet for internal load balancers.
pub const PRIVATE_ELB_TAG: &'static str = "kubernetes.io/role/internal-elb";

/// The tag key that marks a subnet for internet-facing load balancers.
pub const PUBLIC_ELB_TAG: &'static str = "kubernetes.io/role/elb";

/// How the key of a cluster-ownership tag begins.
pub const CLUSTER_TAG: &'static str = "kubernetes.io/cluster/";

/// The tag has a key and a value, and the key holds `marker`.
pub open spec fn key_holds(tag: TagView, marker: Seq<char>) -> bool {
    &&& tag.key matches Some(key)
    &&& tag.value is Some
    &&& occurs_in(marker, key)
}

/// The tag claims the subnet for some cluster.
pub open spec fn names_cluster(tag: TagView) -> bool {
    key_holds(tag, CLUSTER_TAG@)
}

/// The key of the tag by which the cluster that goes by `name` marks what is
/// its own.
pub open spec fn own_tag_key(name: Seq<char>) -> Seq<char> {
    CLUSTER_TAG@ + name
}

/// The tag claims the subnet as owned by a cluster other than the one that
/// goes by `cluster_id` and `infra_name`: it names a cluster, its value is
/// `owned`, and its key is neither the cluster's own key by identifier nor
/// the one by infra name. A tag that shares the subnet with another cluster
/// is not of this kind.
pub open spec fn is_foreign_owned(tag: TagView, cluster_id: Seq<char>, infra_name: Seq<char>) -> bool {
    &&& names_cluster(tag)
    &&& tag.key->0 != own_tag_key(cluster_id)
    &&& tag.key->0 != own_tag_key(infra_name)
    &&& tag.value->0 == "owned"@
}

/// Some tag has a key that holds `marker`.
pub open spec fn some_key_holds(tags: Seq<TagView>, marker: Seq<char>) -> bool {
    exists|k: int| 0 <= k < tags.len() && key_holds(#[trigger] tags[k], marker)
}

/// The key of the last tag that claims the subnet for another cluster.
pub open spec fn foreign_owned_key(
    tags: Seq<TagView>,
    cluster_id: Seq<char>,
    infra_name: Seq<char>,
) -> Option<Seq<char>>
    decreases tags.len(),
{
    if tags.len() == 0 {
        None
    } else if is_foreign_owned(tags.last(), cluster_id, infra_name) {
        tags.last().key
    } else {
        foreign_owned_key(tags.drop_last(), cluster_id, infra_name)
    }
}

/// A finding with the given text and grade.
pub open spec fn finding(message: Seq<char>, severity: Severity) -> ResultView {
    ResultView { message, severity }
}

/// The finding for a subnet that no tag claims for any cluster.
pub open spec fn missing_cluster_tag(subnet_id: Seq<char>, infra_name: Seq<char>) -> ResultView {
    finding(
        "Subnet "@ + subnet_id + " is missing cluster tag: "@ + CLUSTER_TAG@ + infra_name,
        Severity::Info,
    )
}

/// The finding for a subnet that another cluster's tag `key` claims as owned.
pub open spec fn incorrect_cluster_tag(subnet_id: Seq<char>, key: Seq<char>) -> ResultView {
    finding(
        "Subnet "@ + subnet_id + " is using incorrect cluster tag: "@ + key,
        Severity::Critical,
    )
}

/// The finding for a private subnet without the tag for internal load
/// balancers.
pub open spec fn missing_private_elb_tag(subnet_id: Seq<char>) -> ResultView {
    finding("Subnet "@ + subnet_id + " is missing private ELB tag"@, Severity::Info)
}

/// The finding for a public subnet without the tag for internet-facing load
/// balancers.
pub open spec fn missing_public_elb_tag(subnet_id: Seq<char>) -> ResultView {
    finding("Subnet "@ + subnet_id + " is missing public ELB tag"@, Severity::Info)
}

/// The finding for a subnet whose tags are in order.
pub open spec fn subnet_correct(subnet_id: Seq<char>) -> ResultView {
    finding(
        "Subnet "@ + subnet_id + " is correctly setup: expected tags are present."@,
        Severity::Okay,
    )
}

/// The finding of the tag check where there is no subnet to look at.
pub open spec fn no_subnets() -> ResultView {
    finding("No subnets found - no tags to check"@, Severity::Okay)
}

/// `yes` as a list of one where `when` holds, the empty list otherwise.
pub open spec fn only_if(when: bool, yes: ResultView) -> Seq<ResultView> {
    if when {
        seq![yes]
    } else {
        Seq::empty()
    }
}

/// What the tags of one subnet give rise to: a finding for each of the four
/// conditions that fails, in this order, and a single success where none
/// does.
pub open spec fn subnet_findings(
    subnet: SubnetView,
    cluster: ClusterInfoView,
    private: bool,
    public: bool,
) -> Seq<ResultView> {
    let id = subnet.subnet_id;
    let foreign = foreign_owned_key(subnet.tags, cluster.cluster_id, cluster.cluster_infra_name);
    let failed = only_if(
        !some_key_holds(subnet.tags, CLUSTER_TAG@),
        missing_cluster_tag(id, cluster.cluster_infra_name),
    ) + only_if(foreign is Some, incorrect_cluster_tag(id, foreign->0)) + only_if(
        private && !some_key_holds(subnet.tags, PRIVATE_ELB_TAG@),
        missing_private_elb_tag(id),
    ) + only_if(
        public && !some_key_holds(subnet.tags, PUBLIC_ELB_TAG@),
        missing_public_elb_tag(id),
    );
    if failed.len() == 0 {
        seq![subnet_correct(id)]
    } else {
        failed
    }
}

/// How a crowded group is named in a finding: by network and zone, with the
/// number of its subnets.
pub open spec fn group_label(group: GroupView) -> Seq<char> {
    group.vpc_id + " (AZ: "@ + group.availability_zone + "): "@ + decimal(group.count)
        + " subnets"@
}

/// The finding of the count of subnets, given the crowded groups: a success
/// where there is none, else one warning that names them all.
pub open spec fn subnet_count_finding(crowded: Seq<GroupView>) -> ResultView {
    if crowded.len() == 0 {
        finding("AZs have the expected number of subnets"@, Severity::Okay)
    } else {
        finding(
            "There are too many subnets in the following VPC: "@ + joined(
                crowded.map_values(|g: GroupView| group_label(g)),
                ", "@,
            ),
            Severity::Warning,
        )
    }
}

/// The finding of the route table check for a cluster with explicit subnets.
pub open spec fn routetables_skipped() -> ResultView {
    finding("The cluster is BYOVPC - will not check routetables for subnets"@, Severity::Okay)
}

/// The finding of the route table check for a cluster without explicit
/// subnets.
pub open spec fn routetables_unchecked() -> ResultView {
    finding("The check of routetables for subnets is not available"@, Severity::Okay)
}

/// The finding for a load balancer that uses a subnet outside the configured
/// ones. It names the load balancer, then the zone, then the subnet.
pub open spec fn foreign_lb_subnet(arn: Seq<char>, zone: Seq<char>, subnet_id: Seq<char>) -> ResultView {
    finding(
        "LoadBalancer "@ + arn + " is using subnet "@ + zone + " (AZ: "@ + subnet_id
            + ") that is not configured for this cluster."@,
        Severity::Warning,
    )
}

/// The finding of the load balancer check where nothing is wrong.
pub open spec fn lb_subnets_correct() -> ResultView {
    finding("LoadBalancer subnet associations are correct"@, Severity::Okay)
}

/// The finding of the load balancer check for a cluster without explicit
/// subnets.
pub open spec fn lb_subnets_skipped() -> ResultView {
    finding(
        "The cluster has no configured subnets - will not check subnets of LoadBalancers"@,
        Severity::Okay,
    )
}

/// The finding where no network interface was handed in.
pub open spec fn no_interfaces() -> ResultView {
    finding("No ENIs found"@, Severity::Critical)
}

/// The finding where none of the network interfaces is known to sit in a
/// subnet, so that there is nothing to object to.
pub open spec fn no_interface_subnets() -> ResultView {
    finding("No LoadBalancer ENI is using a subnet"@, Severity::Okay)
}

/// The finding for a network interface in a configured subnet.
pub open spec fn interface_inside(interface_id: Seq<char>, subnet_id: Seq<char>) -> ResultView {
    finding(
        "LoadBalancer ENI "@ + interface_id + " is using cluster subnet: "@ + subnet_id,
        Severity::Okay,
    )
}

/// The finding for a network interface outside the configured subnets.
pub open spec fn interface_outside(interface_id: Seq<char>, subnet_id: Seq<char>) -> ResultView {
    finding(
        "LoadBalancer ENI "@ + interface_id + " is using a non-cluster subnet: "@ + subnet_id,
        Severity::Warning,
    )
}

/// The identifiers of those of `subnets` whose identifier meets `keep`, in
/// order.
pub open spec fn ids_where(subnets: Seq<SubnetView>, keep: spec_fn(Seq<char>) -> bool) -> Seq<
    Seq<char>,
>
    decreases subnets.len(),
{
    if subnets.len() == 0 {
        Seq::empty()
    } else if keep(subnets.last().subnet_id) {
        ids_where(subnets.drop_last(), keep).push(subnets.last().subnet_id)
    } else {
        ids_where(subnets.drop_last(), keep)
    }
}

/// Model of a [`ClusterNetwork`]: the snapshot that the checks read. The
/// association of subnets with route tables is derived from the subnets and
/// the tables, and so is no part of the model.
pub struct NetworkView {
    pub cluster: ClusterInfoView,
    pub subnets: Seq<SubnetView>,
    pub tables: Seq<RouteTableView>,
    pub load_balancers: Seq<LoadBalancerView>,
    pub interfaces: Seq<NetworkInterfaceView>,
}

impl NetworkView {
    /// For each subnet with a route table, the position of that table.
    pub open spec fn positions(self) -> Map<Seq<char>, int> {
        table_positions(self.subnets, self.tables)
    }

    /// The association of subnets with route tables: each subnet that some
    /// table names, with the first such table.
    pub open spec fn association_index(self) -> Map<Seq<char>, RouteTableView> {
        Map::new(
            |id: Seq<char>| self.positions().dom().contains(id),
            |id: Seq<char>| self.tables[self.positions()[id]],
        )
    }

    /// The subnet is public.
    pub open spec fn is_public(self, subnet_id: Seq<char>) -> bool {
        routes_public(routes_of(self.positions(), self.tables, subnet_id))
    }

    /// The subnet is private. A subnet without a route table has no default
    /// route, and so is private.
    pub open spec fn is_private(self, subnet_id: Seq<char>) -> bool {
        routes_private(routes_of(self.positions(), self.tables, subnet_id))
    }

    /// The subnet is one of those configured for the cluster: it is among
    /// the subnets of the snapshot, and in the cluster's explicit list where
    /// the cluster has one.
    pub open spec fn is_configured(self, subnet_id: Seq<char>) -> bool {
        &&& names_subnet(self.subnets, subnet_id)
        &&& self.cluster.is_byovpc() ==> self.cluster.subnets.contains(subnet_id)
    }

    /// The identifiers of the public subnets, in the order of the subnets.
    pub open spec fn public_subnets(self) -> Seq<Seq<char>> {
        ids_where(self.subnets, |id: Seq<char>| self.is_public(id))
    }

    /// The identifiers of the private subnets, in the order of the subnets.
    pub open spec fn private_subnets(self) -> Seq<Seq<char>> {
        ids_where(self.subnets, |id: Seq<char>| self.is_private(id))
    }

    /// The identifiers of the configured subnets, in the order of the
    /// subnets.
    pub open spec fn configured_subnets(self) -> Seq<Seq<char>> {
        ids_where(self.subnets, |id: Seq<char>| self.is_configured(id))
    }

    /// The findings on the tags of one subnet.
    pub open spec fn findings_of_subnet(self, subnet: SubnetView) -> Seq<ResultView> {
        subnet_findings(
            subnet,
            self.cluster,
            self.is_private(subnet.subnet_id),
            self.is_public(subnet.subnet_id),
        )
    }

    /// The findings on the tags of the first `n` subnets, subnet by subnet.
    pub open spec fn tag_findings_upto(self, n: int) -> Seq<ResultView>
        decreases n,
    {
        if n <= 0 {
            Seq::empty()
        } else {
            self.tag_findings_upto(n - 1) + self.findings_of_subnet(self.subnets[n - 1])
        }
    }

    /// The findings of the tag check.
    pub open spec fn subnet_tag_findings(self) -> Seq<ResultView> {
        if self.subnets.len() == 0 {
            seq![no_subnets()]
        } else {
            self.tag_findings_upto(self.subnets.len() as int)
        }
    }

    /// The groups of subnets that are larger than expected.
    pub open spec fn crowded_groups(self) -> Seq<GroupView> {
        crowded_groups(self.subnets)
    }

    /// The finding of the count of subnets.
    pub open spec fn subnet_count_finding(self) -> ResultView {
        subnet_count_finding(self.crowded_groups())
    }

    /// All findings on the network: the count of subnets, then the subnets
    /// of load balancers, the tags of subnets, and the subnets of network
    /// interfaces.
    pub open spec fn all_findings(self) -> Seq<ResultView> {
        seq![self.subnet_count_finding()] + self.loadbalancer_subnet_findings()
            + self.subnet_tag_findings() + self.loadbalancer_eni_findings()
    }

    /// The findings of the route table check.
    pub open spec fn subnet_routetable_findings(self) -> Seq<ResultView> {
        if self.cluster.is_byovpc() {
            seq![routetables_skipped()]
        } else {
            seq![routetables_unchecked()]
        }
    }

    /// The warnings for the first `n` zones of a modern load balancer.
    pub open spec fn zone_warnings_upto(self, lb: NetworkLoadBalancerView, n: int) -> Seq<
        ResultView,
    >
        decreases n,
    {
        if n <= 0 {
            Seq::empty()
        } else {
            let zone = lb.availability_zones[n - 1];
            self.zone_warnings_upto(lb, n - 1) + only_if(
                !self.is_configured(zone.subnet_id),
                foreign_lb_subnet(lb.load_balancer_arn, zone.zone_name, zone.subnet_id),
            )
        }
    }

    /// The warnings for one load balancer. A classic load balancer is not
    /// looked at.
    pub open spec fn lb_warnings(self, lb: LoadBalancerView) -> Seq<ResultView> {
        match lb {
            LoadBalancerView::Classic(_, _) => Seq::empty(),
            LoadBalancerView::Modern(m, _) => self.zone_warnings_upto(
                m,
                m.availability_zones.len() as int,
            ),
        }
    }

    /// The warnings for the first `n` load balancers.
    pub open spec fn lb_warnings_upto(self, n: int) -> Seq<ResultView>
        decreases n,
    {
        if n <= 0 {
            Seq::empty()
        } else {
            self.lb_warnings_upto(n - 1) + self.lb_warnings(self.load_balancers[n - 1])
        }
    }

    /// The findings of the load balancer check.
    pub open spec fn loadbalancer_subnet_findings(self) -> Seq<ResultView> {
        let warnings = self.lb_warnings_upto(self.load_balancers.len() as int);
        if !self.cluster.is_byovpc() {
            seq![lb_subnets_skipped()]
        } else if warnings.len() == 0 {
            seq![lb_subnets_correct()]
        } else {
            warnings
        }
    }

    /// The finding on one network interface: none where its subnet is not
    /// known.
    pub open spec fn findings_of_interface(self, eni: NetworkInterfaceView) -> Seq<ResultView> {
        match eni.subnet_id {
            Some(subnet_id) => seq![
                if self.is_configured(subnet_id) {
                    interface_inside(eni.network_interface_id, subnet_id)
                } else {
                    interface_outside(eni.network_interface_id, subnet_id)
                },
            ],
            None => Seq::empty(),
        }
    }

    /// The findings on the first `n` network interfaces.
    pub open spec fn interface_findings_upto(self, n: int) -> Seq<ResultView>
        decreases n,
    {
        if n <= 0 {
            Seq::empty()
        } else {
            self.interface_findings_upto(n - 1) + self.findings_of_interface(
                self.interfaces[n - 1],
            )
        }
    }

    /// The findings of the network interface check: a critical one where
    /// there is no interface at all, else one for each interface whose subnet
    /// is known, and a single success where there is none of these.
    pub open spec fn loadbalancer_eni_findings(self) -> Seq<ResultView> {
        let found = self.interface_findings_upto(self.interfaces.len() as int);
        if self.interfaces.len() == 0 {
            seq![no_interfaces()]
        } else if found.len() == 0 {
            seq![no_interface_subnets()]
        } else {
            found
        }
    }
}

/// What a [`ClusterNetwork`] is made from. Lists that are left empty give
/// the checks nothing to object to.
#[derive(Debug, Clone, PartialEq, Eq)]
pub struct ClusterNetworkConfig {
    pub cluster_info: MinimalClusterInfo,
    pub all_subnets: Vec<Subnet>,
    pub routetables: Vec<RouteTable>,
    pub load_balancers: Vec<AWSLoadBalancer>,
    pub load_balancer_enis: Vec<NetworkInterface>,
}

impl View for ClusterNetworkConfig {
    type V = NetworkView;

    open spec fn view(&self) -> NetworkView {
        NetworkView {
            cluster: self.cluster_info@,
            subnets: subnet_views(self.all_subnets@),
            tables: table_views(self.routetables@),
            load_balancers: load_balancer_views(self.load_balancers@),
            interfaces: interface_views(self.load_balancer_enis@),
        }
    }
}

impl ClusterNetworkConfig {
    /// A configuration for the cluster with every list empty.
    pub fn new(cluster_info: MinimalClusterInfo) -> (config: ClusterNetworkConfig)
        ensures
            config@ == (NetworkView {
                cluster: cluster_info@,
                subnets: Seq::empty(),
                tables: Seq::empty(),
                load_balancers: Seq::empty(),
                interfaces: Seq::empty(),
            }),
    {
        let config = ClusterNetworkConfig {
            cluster_info,
            all_subnets: Vec::new(),
            routetables: Vec::new(),
            load_balancers: Vec::new(),
            load_balancer_enis: Vec::new(),
        };
        assert(config@.subnets =~= Seq::empty());
        assert(config@.tables =~= Seq::empty());
        assert(config@.load_balancers =~= Seq::empty());
        assert(config@.interfaces =~= Seq::empty());
        config
    }
}

/// The network of one cluster as it was found, with the association of
/// subnets and route tables derived from it.
#[derive(Debug)]
pub struct ClusterNetwork {
    cluster_info: MinimalClusterInfo,
    all_subnets: Vec<Subnet>,
    routetables: Vec<RouteTable>,
    subnet_routetable_mapping: AssociationIndex,
    load_balancers: Vec<AWSLoadBalancer>,
    load_balancer_enis: Vec<NetworkInterface>,
}

impl View for ClusterNetwork {
    type V = NetworkView;

    closed spec fn view(&self) -> NetworkView {
        NetworkView {
            cluster: self.cluster_info@,
            subnets: subnet_views(self.all_subnets@),
            tables: table_views(self.routetables@),
            load_balancers: load_balancer_views(self.load_balancers@),
            interfaces: interface_views(self.load_balancer_enis@),
        }
    }
}

fn holds_marker(tag: &Tag, marker: &str) -> (b: bool)
    ensures
        b == key_holds(tag@, marker@),
{
    match (&tag.key, &tag.value) {
        (Some(key), Some(_)) => contains(key.as_str(), marker),
        _ => false,
    }
}

fn own_key(name: &String) -> (key: String)
    ensures
        key@ == own_tag_key(name@),
{
    let mut key = String::from_str(CLUSTER_TAG);
    key.append(name.as_str());
    key
}

fn foreign_owned(tag: &Tag, own_by_id: &String, own_by_name: &String) -> (b: bool)
    ensures
        b == (names_cluster(tag@) && tag@.key->0 != own_by_id@ && tag@.key->0 != own_by_name@
            && tag@.value->0 == "owned"@),
{
    match (&tag.key, &tag.value) {
        (Some(key), Some(value)) => {
            contains(key.as_str(), CLUSTER_TAG) && !(*key == *own_by_id) && !(*key
                == *own_by_name) && same_text(value, "owned")
        },
        _ => false,
    }
}

fn text_in(texts: &Vec<String>, wanted: &String) -> (found: bool)
    ensures
        found == texts@.map_values(|s: String| s@).contains(wanted@),
{
    let ghost views = texts@.map_values(|s: String| s@);
    let mut k: usize = 0;
    while k < texts.len()
        invariant
            k <= texts.len(),
            views == texts@.map_values(|s: String| s@),
            forall|j: int| 0 <= j < k ==> views[j] != wanted@,
        decreases texts.len() - k,
    {
        if texts[k] == *wanted {
            assert(views[k as int] == wanted@);
            return true;
        }
        k = k + 1;
    }
    false
}

fn subnet_in(subnets: &Vec<Subnet>, wanted: &String) -> (found: bool)
    ensures
        found == names_subnet(subnet_views(subnets@), wanted@),
{
    let ghost views = subnet_views(subnets@);
    let mut k: usize = 0;
    while k < subnets.len()
        invariant
            k <= subnets.len(),
            views == subnet_views(subnets@),
            forall|j: int| 0 <= j < k ==> (#[trigger] views[j]).subnet_id != wanted@,
        decreases subnets.len() - k,
    {
        if subnets[k].subnet_id == *wanted {
            assert(views[k as int].subnet_id == wanted@);
            return true;
        }
        k = k + 1;
    }
    false
}

impl ClusterNetwork {
    #[verifier::type_invariant]
    closed spec fn indexed(&self) -> bool {
        self.subnet_routetable_mapping@ == table_positions(
            subnet_views(self.all_subnets@),
            table_views(self.routetables@),
        )
    }

    /// Takes the snapshot and derives the association of subnets with route
    /// tables from it.
    pub fn new(config: ClusterNetworkConfig) -> (network: ClusterNetwork)
        ensures
            network@ == config@,
    {
        let subnet_routetable_mapping = AssociationIndex::build(
            &config.all_subnets,
            &config.routetables,
        );
        ClusterNetwork {
            cluster_info: config.cluster_info,
            all_subnets: config.all_subnets,
            routetables: config.routetables,
            subnet_routetable_mapping,
            load_balancers: config.load_balancers,
            load_balancer_enis: config.load_balancer_enis,
        }
    }

    /// The association of subnets with route tables.
    pub fn subnet_routetable_mapping(&self) -> (index: &AssociationIndex)
        ensures
            index@ == self@.positions(),
    {
        proof {
            use_type_invariant(self);
        }
        &self.subnet_routetable_mapping
    }

    /// The route table of the subnet, where it has one.
    pub fn route_table_of(&self, subnet_id: &str) -> (table: Option<&RouteTable>)
        ensures
            match table {
                Some(t) => self@.association_index().dom().contains(subnet_id@)
                    && self@.association_index()[subnet_id@] == t@,
                None => !self@.association_index().dom().contains(subnet_id@),
            },
    {
        proof {
            use_type_invariant(self);
        }
        let id = String::from_str(subnet_id);
        match self.subnet_routetable_mapping.get(&id) {
            Some(at) => {
                proof {
                    let tv = table_views(self.routetables@);
                    assert(has_table(tv, id@));
                    assert(is_first_table(tv, id@, first_table(tv, id@)));
                }
                Some(&self.routetables[at])
            },
            None => None,
        }
    }

    /// Whether the subnet is public.
    pub fn is_public(&self, subnet_id: &str) -> (public: bool)
        ensures
            public == self@.is_public(subnet_id@),
    {
        match self.route_table_of(subnet_id) {
            Some(table) => classify_public(&table.routes),
            None => false,
        }
    }

    /// Whether the subnet is private.
    pub fn is_private(&self, subnet_id: &str) -> (private: bool)
        ensures
            private == self@.is_private(subnet_id@),
    {
        match self.route_table_of(subnet_id) {
            Some(table) => classify_private(&table.routes),
            None => true,
        }
    }

    /// Whether the subnet is one of those configured for the cluster.
    pub fn is_configured(&self, subnet_id: &String) -> (configured: bool)
        ensures
            configured == self@.is_configured(subnet_id@),
    {
        if !subnet_in(&self.all_subnets, subnet_id) {
            return false;
        }
        if self.cluster_info.subnets.len() == 0 {
            return true;
        }
        text_in(&self.cluster_info.subnets, subnet_id)
    }

    /// The groups of subnets, by network and zone, that hold more subnets
    /// than a zone is expected to have, in ascending order and with their
    /// sizes.
    pub fn crowded_groups(&self) -> (groups: Vec<SubnetGroup>)
        ensures
            is_crowded_listing(self@.subnets, group_views(groups@)),
            group_views(groups@) == self@.crowded_groups(),
    {
        find_crowded_groups(&self.all_subnets)
    }

    /// Checks that no zone of a network holds more subnets than expected.
    pub fn verify_number_of_subnets(&self) -> (result: VerificationResult)
        ensures
            result@ == self@.subnet_count_finding(),
    {
        let groups = self.crowded_groups();
        if groups.len() == 0 {
            return VerificationResult::new(
                String::from_str("AZs have the expected number of subnets"),
                Severity::Okay,
            );
        }
        let ghost wanted = group_views(groups@).map_values(|g: GroupView| group_label(g));
        let mut labels: Vec<String> = Vec::new();
        let mut i: usize = 0;
        while i < groups.len()
            invariant
                i <= groups.len(),
                wanted == group_views(groups@).map_values(|g: GroupView| group_label(g)),
                labels@.map_values(|p: String| p@) == wanted.take(i as int),
            decreases groups.len() - i,
        {
            let ghost before = labels@.map_values(|p: String| p@);
            let mut label = groups[i].vpc_id.clone();
            label.append(" (AZ: ");
            label.append(groups[i].availability_zone.as_str());
            label.append("): ");
            label.append(decimal_text(groups[i].count).as_str());
            label.append(" subnets");
            labels.push(label);
            assert(labels@.map_values(|p: String| p@) =~= before.push(wanted[i as int]));
            assert(wanted.take(i + 1) =~= wanted.take(i as int).push(wanted[i as int]));
            i = i + 1;
        }
        assert(wanted.take(i as int) =~= wanted);
        let mut message = String::from_str("There are too many subnets in the following VPC: ");
        message.append(join(&labels, ", ").as_str());
        VerificationResult::new(message, Severity::Warning)
    }

    /// Checks the tags of one subnet.
    pub fn verify_tags_of_subnet(&self, subnet: &Subnet) -> (results: Vec<VerificationResult>)
        ensures
            result_views(results@) == self@.findings_of_subnet(subnet@),
            results.len() > 0,
    {
        let id = &subnet.subnet_id;
        let cluster_id = &self.cluster_info.cluster_id;
        let infra_name = &self.cluster_info.cluster_infra_name;
        let own_by_id = own_key(cluster_id);
        let own_by_name = own_key(infra_name);
        let ghost tags = tag_views(subnet.tags@);
        let mut cluster_tag = false;
        let mut private_tag = false;
        let mut public_tag = false;
        let mut foreign: Option<String> = None;
        let mut k: usize = 0;
        while k < subnet.tags.len()
            invariant
                k <= subnet.tags.len(),
                tags == tag_views(subnet.tags@),
                own_by_id@ == own_tag_key(cluster_id@),
                own_by_name@ == own_tag_key(infra_name@),
                cluster_tag == some_key_holds(tags.take(k as int), CLUSTER_TAG@),
                private_tag == some_key_holds(tags.take(k as int), PRIVATE_ELB_TAG@),
                public_tag == some_key_holds(tags.take(k as int), PUBLIC_ELB_TAG@),
                crate::resources::opt_text(foreign) == foreign_owned_key(
                    tags.take(k as int),
                    cluster_id@,
                    infra_name@,
                ),
            decreases subnet.tags.len() - k,
        {
            let tag = &subnet.tags[k];
            proof {
                let before = tags.take(k as int);
                let after = tags.take(k + 1);
                assert(after.drop_last() =~= before);
                assert(after.last() == tag@);
                lemma_some_key_holds_push(before, after, CLUSTER_TAG@);
                lemma_some_key_holds_push(before, after, PRIVATE_ELB_TAG@);
                lemma_some_key_holds_push(before, after, PUBLIC_ELB_TAG@);
            }
            if holds_marker(tag, CLUSTER_TAG) {
                cluster_tag = true;
            }
            if holds_marker(tag, PRIVATE_ELB_TAG) {
                private_tag = true;
            }
            if holds_marker(tag, PUBLIC_ELB_TAG) {
                public_tag = true;
            }
            if foreign_owned(tag, &own_by_id, &own_by_name) {
                foreign = match &tag.key {
                    Some(key) => Some(key.clone()),
                    None => None,
                };
            }
            k = k + 1;
        }
        assert(tags.take(k as int) =~= tags);
        let private = self.is_private(id.as_str());
        let public = self.is_public(id.as_str());
        let mut results: Vec<VerificationResult> = Vec::new();
        if !cluster_tag {
            let mut message = String::from_str("Subnet ");
            message.append(id.as_str());
            message.append(" is missing cluster tag: ");
            message.append(CLUSTER_TAG);
            message.append(infra_name.as_str());
            results.push(VerificationResult::new(message, Severity::Info));
        }
        let ghost first = result_views(results@);
        assert(first =~= only_if(
            !some_key_holds(tags, CLUSTER_TAG@),
            missing_cluster_tag(id@, infra_name@),
        ));
        match foreign {
            Some(key) => {
                let mut message = String::from_str("Subnet ");
                message.append(id.as_str());
                message.append(" is using incorrect cluster tag: ");
                message.append(key.as_str());
                results.push(VerificationResult::new(message, Severity::Critical));
            },
            None => {},
        }
        let ghost second = result_views(results@);
        let ghost foreign_key = foreign_owned_key(tags, cluster_id@, infra_name@);
        assert(second =~= first + only_if(
            foreign_key is Some,
            incorrect_cluster_tag(id@, foreign_key->0),
        ));
        if private && !private_tag {
            let mut message = String::from_str("Subnet ");
            message.append(id.as_str());
            message.append(" is missing private ELB tag");
            results.push(VerificationResult::new(message, Severity::Info));
        }
        let ghost third = result_views(results@);
        assert(third =~= second + only_if(
            private && !some_key_holds(tags, PRIVATE_ELB_TAG@),
            missing_private_elb_tag(id@),
        ));
        if public && !public_tag {
            let mut message = String::from_str("Subnet ");
            message.append(id.as_str());
            message.append(" is missing public ELB tag");
            results.push(VerificationResult::new(message, Severity::Info));
        }
        let ghost fourth = result_views(results@);
        assert(fourth =~= third + only_if(
            public && !some_key_holds(tags, PUBLIC_ELB_TAG@),
            missing_public_elb_tag(id@),
        ));
        if results.len() == 0 {
            let mut message = String::from_str("Subnet ");
            message.append(id.as_str());
            message.append(" is correctly setup: expected tags are present.");
            results.push(VerificationResult::new(message, Severity::Okay));
            assert(result_views(results@) =~= seq![subnet_correct(id@)]);
        }
        results
    }

    /// Checks that every subnet carries the tags that are expected of it: a
    /// tag of the cluster, none that claims it for another, and the tag for
    /// the kind of load balancer that its class calls for.
    pub fn verify_subnet_tags(&self) -> (results: Vec<VerificationResult>)
        ensures
            result_views(results@) == self@.subnet_tag_findings(),
            results.len() > 0,
    {
        let mut results: Vec<VerificationResult> = Vec::new();
        let mut i: usize = 0;
        while i < self.all_subnets.len()
            invariant
                i <= self.all_subnets.len(),
                result_views(results@) == self@.tag_findings_upto(i as int),
                i > 0 ==> results.len() > 0,
            decreases self.all_subnets.len() - i,
        {
            let found = self.verify_tags_of_subnet(&self.all_subnets[i]);
            assert(self@.subnets[i as int] == self.all_subnets[i as int]@);
            extend_results(&mut results, found);
            i = i + 1;
        }
        if self.all_subnets.len() == 0 {
            results.push(
                VerificationResult::new(
                    String::from_str("No subnets found - no tags to check"),
                    Severity::Okay,
                ),
            );
            assert(result_views(results@) =~= seq![no_subnets()]);
        }
        results
    }

    /// The identifiers of the public subnets.
    pub fn get_public_subnets(&self) -> (ids: Vec<String>)
        ensures
            ids@.map_values(|s: String| s@) == self@.public_subnets(),
    {
        let ghost keep = |id: Seq<char>| self@.is_public(id);
        let mut ids: Vec<String> = Vec::new();
        let mut i: usize = 0;
        while i < self.all_subnets.len()
            invariant
                i <= self.all_subnets.len(),
                keep == |id: Seq<char>| self@.is_public(id),
                ids@.map_values(|s: String| s@) == ids_where(self@.subnets.take(i as int), keep),
            decreases self.all_subnets.len() - i,
        {
            let id = &self.all_subnets[i].subnet_id;
            let ghost before = ids@.map_values(|s: String| s@);
            proof {
                assert(self@.subnets.take(i + 1).drop_last() =~= self@.subnets.take(i as int));
                assert(self@.subnets.take(i + 1).last().subnet_id == id@);
            }
            if self.is_public(id.as_str()) {
                ids.push(id.clone());
                assert(ids@.map_values(|s: String| s@) =~= before.push(id@));
            }
            i = i + 1;
        }
        assert(self@.subnets.take(i as int) =~= self@.subnets);
        ids
    }

    /// The identifiers of the private subnets.
    pub fn get_private_subnets(&self) -> (ids: Vec<String>)
        ensures
            ids@.map_values(|s: String| s@) == self@.private_subnets(),
    {
        let ghost keep = |id: Seq<char>| self@.is_private(id);
        let mut ids: Vec<String> = Vec::new();
        let mut i: usize = 0;
        while i < self.all_subnets.len()
            invariant
                i <= self.all_subnets.len(),
                keep == |id: Seq<char>| self@.is_private(id),
                ids@.map_values(|s: String| s@) == ids_where(self@.subnets.take(i as int), keep),
            decreases self.all_subnets.len() - i,
        {
            let id = &self.all_subnets[i].subnet_id;
            let ghost before = ids@.map_values(|s: String| s@);
            proof {
                assert(self@.subnets.take(i + 1).drop_last() =~= self@.subnets.take(i as int));
                assert(self@.subnets.take(i + 1).last().subnet_id == id@);
            }
            if self.is_private(id.as_str()) {
                ids.push(id.clone());
                assert(ids@.map_values(|s: String| s@) =~= before.push(id@));
            }
            i = i + 1;
        }
        assert(self@.subnets.take(i as int) =~= self@.subnets);
        ids
    }

    /// The identifiers of the subnets that are configured for the cluster:
    /// all of them where the cluster has no explicit list, else those of the
    /// list.
    pub fn configured_subnets(&self) -> (ids: Vec<String>)
        ensures
            ids@.map_values(|s: String| s@) == self@.configured_subnets(),
    {
        let ghost keep = |id: Seq<char>| self@.is_configured(id);
        let mut ids: Vec<String> = Vec::new();
        let mut i: usize = 0;
        while i < self.all_subnets.len()
            invariant
                i <= self.all_subnets.len(),
                keep == |id: Seq<char>| self@.is_configured(id),
                ids@.map_values(|s: String| s@) == ids_where(self@.subnets.take(i as int), keep),
            decreases self.all_subnets.len() - i,
        {
            let id = &self.all_subnets[i].subnet_id;
            let ghost before = ids@.map_values(|s: String| s@);
            proof {
                assert(self@.subnets.take(i + 1).drop_last() =~= self@.subnets.take(i as int));
                assert(self@.subnets.take(i + 1).last().subnet_id == id@);
            }
            if self.is_configured(id) {
                ids.push(id.clone());
                assert(ids@.map_values(|s: String| s@) =~= before.push(id@));
            }
            i = i + 1;
        }
        assert(self@.subnets.take(i as int) =~= self@.subnets);
        ids
    }

    /// Checks that the subnets use the route tables that were made for them.
    /// A cluster with explicit subnets brings its own route tables, so there
    /// the check is skipped; for other clusters it is not available.
    pub fn verify_subnet_routetables(&self) -> (results: Vec<VerificationResult>)
        ensures
            result_views(results@) == self@.subnet_routetable_findings(),
            results.len() > 0,
    {
        let message = if self.cluster_info.subnets.len() > 0 {
            String::from_str("The cluster is BYOVPC - will not check routetables for subnets")
        } else {
            String::from_str("The check of routetables for subnets is not available")
        };
        let mut results: Vec<VerificationResult> = Vec::new();
        results.push(VerificationResult::new(message, Severity::Okay));
        assert(result_views(results@) =~= self@.subnet_routetable_findings());
        results
    }

    fn zone_warnings(&self, lb: &NetworkLoadBalancer) -> (results: Vec<VerificationResult>)
        ensures
            result_views(results@) == self@.zone_warnings_upto(
                lb@,
                lb@.availability_zones.len() as int,
            ),
    {
        let mut results: Vec<VerificationResult> = Vec::new();
        let mut z: usize = 0;
        while z < lb.availability_zones.len()
            invariant
                z <= lb.availability_zones.len(),
                result_views(results@) == self@.zone_warnings_upto(lb@, z as int),
            decreases lb.availability_zones.len() - z,
        {
            let zone = &lb.availability_zones[z];
            let ghost before = result_views(results@);
            assert(lb@.availability_zones[z as int] == zone@);
            if !self.is_configured(&zone.subnet_id) {
                let mut message = String::from_str("LoadBalancer ");
                message.append(lb.load_balancer_arn.as_str());
                message.append(" is using subnet ");
                message.append(zone.zone_name.as_str());
                message.append(" (AZ: ");
                message.append(zone.subnet_id.as_str());
                message.append(") that is not configured for this cluster.");
                results.push(VerificationResult::new(message, Severity::Warning));
                assert(result_views(results@) =~= before + seq![
                    foreign_lb_subnet(lb@.load_balancer_arn, zone@.zone_name, zone@.subnet_id),
                ]);
            } else {
                assert(result_views(results@) =~= before + Seq::<ResultView>::empty());
            }
            z = z + 1;
        }
        results
    }

    /// Checks that every modern load balancer uses only subnets that are
    /// configured for the cluster. Classic load balancers are not looked at.
    /// Without an explicit list of subnets there is nothing to hold the load
    /// balancers to, and the check is skipped.
    pub fn verify_loadbalancer_subnets(&self) -> (results: Vec<VerificationResult>)
        ensures
            result_views(results@) == self@.loadbalancer_subnet_findings(),
            results.len() > 0,
    {
        let mut results: Vec<VerificationResult> = Vec::new();
        if self.cluster_info.subnets.len() == 0 {
            results.push(
                VerificationResult::new(
                    String::from_str(
                        "The cluster has no configured subnets - will not check subnets of LoadBalancers",
                    ),
                    Severity::Okay,
                ),
            );
            assert(result_views(results@) =~= seq![lb_subnets_skipped()]);
            return results;
        }
        let mut i: usize = 0;
        while i < self.load_balancers.len()
            invariant
                i <= self.load_balancers.len(),
                result_views(results@) == self@.lb_warnings_upto(i as int),
            decreases self.load_balancers.len() - i,
        {
            assert(self@.load_balancers[i as int] == self.load_balancers[i as int]@);
            let ghost before = result_views(results@);
            match &self.load_balancers[i] {
                AWSLoadBalancer::ModernLoadBalancer(tagged) => {
                    let found = self.zone_warnings(tagged.resource());
                    extend_results(&mut results, found);
                },
                AWSLoadBalancer::ClassicLoadBalancer(_) => {
                    assert(result_views(results@) =~= before + Seq::<ResultView>::empty());
                },
            }
            i = i + 1;
        }
        if results.len() == 0 {
            results.push(
                VerificationResult::new(
                    String::from_str("LoadBalancer subnet associations are correct"),
                    Severity::Okay,
                ),
            );
            assert(result_views(results@) =~= seq![lb_subnets_correct()]);
        }
        results
    }

    /// Checks that every network interface of a load balancer sits in a
    /// subnet that is configured for the cluster. An interface whose subnet is
    /// not known is passed over. That no interface was found at all is the
    /// gravest finding: the link from load balancers to subnets could not be
    /// made.
    pub fn verify_loadbalancer_eni_subnets(&self) -> (results: Vec<VerificationResult>)
        ensures
            result_views(results@) == self@.loadbalancer_eni_findings(),
            results.len() > 0,
    {
        let mut results: Vec<VerificationResult> = Vec::new();
        if self.load_balancer_enis.len() == 0 {
            results.push(
                VerificationResult::new(String::from_str("No ENIs found"), Severity::Critical),
            );
            assert(result_views(results@) =~= seq![no_interfaces()]);
            return results;
        }
        let mut i: usize = 0;
        while i < self.load_balancer_enis.len()
            invariant
                i <= self.load_balancer_enis.len(),
                result_views(results@) == self@.interface_findings_upto(i as int),
            decreases self.load_balancer_enis.len() - i,
        {
            let eni = &self.load_balancer_enis[i];
            let ghost before = result_views(results@);
            assert(self@.interfaces[i as int] == eni@);
            match &eni.subnet_id {
                Some(subnet_id) => {
                    let mut message = String::from_str("LoadBalancer ENI ");
                    message.append(eni.network_interface_id.as_str());
                    let severity = if self.is_configured(subnet_id) {
                        message.append(" is using cluster subnet: ");
                        Severity::Okay
                    } else {
                        message.append(" is using a non-cluster subnet: ");
                        Severity::Warning
                    };
                    message.append(subnet_id.as_str());
                    results.push(VerificationResult::new(message, severity));
                    assert(result_views(results@) =~= before + self@.findings_of_interface(eni@));
                },
                None => {
                    assert(result_views(results@) =~= before + self@.findings_of_interface(eni@));
                },
            }
            i = i + 1;
        }
        if results.len() == 0 {
            results.push(
                VerificationResult::new(
                    String::from_str("No LoadBalancer ENI is using a subnet"),
                    Severity::Okay,
                ),
            );
            assert(result_views(results@) =~= seq![no_interface_subnets()]);
        }
        results
    }
}

impl Verifier for ClusterNetwork {
    open spec fn findings(&self) -> Seq<ResultView> {
        self@.all_findings()
    }

    fn verify(&self) -> (results: Vec<VerificationResult>) {
        let mut results: Vec<VerificationResult> = Vec::new();
        results.push(self.verify_number_of_subnets());
        assert(result_views(results@) =~= seq![self@.subnet_count_finding()]);
        extend_results(&mut results, self.verify_loadbalancer_subnets());
        extend_results(&mut results, self.verify_subnet_tags());
        extend_results(&mut results, self.verify_loadbalancer_eni_subnets());
        results
    }
}

/// Taking one more tag into account: some key holds the marker if one did
/// before, or the new tag's does.
proof fn lemma_some_key_holds_push(before: Seq<TagView>, after: Seq<TagView>, marker: Seq<char>)
    requires
        after.len() > 0,
        after.drop_last() == before,
    ensures
        some_key_holds(after, marker) == (some_key_holds(before, marker) || key_holds(
            after.last(),
            marker,
        )),
{
    if some_key_holds(before, marker) {
        let k = choose|k: int| 0 <= k < before.len() && key_holds(#[trigger] before[k], marker);
        assert(key_holds(after[k], marker));
    }
    if key_holds(after.last(), marker) {
        assert(key_holds(after[after.len() - 1], marker));
    }
    if some_key_holds(after, marker) {
        let k = choose|k: int| 0 <= k < after.len() && key_holds(#[trigger] after[k], marker);
        if k < before.len() {
            assert(key_holds(before[k], marker));
        }
    }
}

} // verus!
