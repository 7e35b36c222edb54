//! Snapshots of the cloud resources that the checks read, each with its
//! mathematical model.

use vstd::prelude::*;

verus! {

/// The text of an optional string.
pub open spec fn opt_text(o: Option<String>) -> Option<Seq<char>> {
    match o {
        Some(s) => Some(s@),
        None => None,
    }
}

/// Model of a [`Tag`].
pub struct TagView {
    pub key: Option<Seq<char>>,
    pub value: Option<Seq<char>>,
}

/// A key/value label attached to a resource.
#[derive(Debug, Clone, PartialEq, Eq)]
pub struct Tag {
    pub key: Option<String>,
    pub value: Option<String>,
}

impl View for Tag {
    type V = TagView;

    open spec fn view(&self) -> TagView {
        TagView { key: opt_text(self.key), value: opt_text(self.value) }
    }
}

/// The models of the tags of `tags`.
pub open spec fn tag_views(tags: Seq<Tag>) -> Seq<TagView> {
    tags.map_values(|t: Tag| t@)
}

/// Model of a [`TaggedResource`].
pub struct TaggedView<V> {
    pub resource: V,
    pub tags: Seq<TagView>,
}

/// A resource together with the tags that were fetched for it.
#[derive(Debug, Clone, PartialEq, Eq)]
pub struct TaggedResource<T> {
    t: T,
    tags: Vec<Tag>,
}

impl<T: View> View for TaggedResource<T> {
    type V = TaggedView<T::V>;

    closed spec fn view(&self) -> TaggedView<T::V> {
        TaggedView { resource: self.t@, tags: tag_views(self.tags@) }
    }
}

impl<T: View> TaggedResource<T> {
    /// Pairs a resource with its tags.
    pub fn new(t: T, tags: Vec<Tag>) -> (r: TaggedResource<T>)
        ensures
            r@ == (TaggedView { resource: t@, tags: tag_views(tags@) }),
    {
        TaggedResource { t, tags }
    }

    /// The resource itself.
    pub fn resource(&self) -> (t: &T)
        ensures
            t@ == self@.resource,
    {
        &self.t
    }

    /// The tags carried alongside the resource.
    pub fn tags(&self) -> (tags: &Vec<Tag>)
        ensures
            tag_views(tags@) == self@.tags,
    {
        &self.tags
    }
}

/// Model of a [`Subnet`].
pub struct SubnetView {
    pub subnet_id: Seq<char>,
    pub availability_zone: Seq<char>,
    pub vpc_id: Seq<char>,
    pub tags: Seq<TagView>,
}

/// A subnet of a virtual network.
#[derive(Debug, Clone, PartialEq, Eq)]
pub struct Subnet {
    pub subnet_id: String,
    pub availability_zone: String,
    pub vpc_id: String,
    pub tags: Vec<Tag>,
}

impl View for Subnet {
    type V = SubnetView;

    open spec fn view(&self) -> SubnetView {
        SubnetView {
            subnet_id: self.subnet_id@,
            availability_zone: self.availability_zone@,
            vpc_id: self.vpc_id@,
            tags: tag_views(self.tags@),
        }
    }
}

/// The models of the subnets of `subnets`.
pub open spec fn subnet_views(subnets: Seq<Subnet>) -> Seq<SubnetView> {
    subnets.map_values(|s: Subnet| s@)
}

/// Model of a [`Route`].
pub struct RouteView {
    pub destination_cidr_block: Option<Seq<char>>,
    pub gateway_id: Option<Seq<char>>,
    pub nat_gateway_id: Option<Seq<char>>,
    pub transit_gateway_id: Option<Seq<char>>,
}

/// One entry of a route table.
#[derive(Debug, Clone, PartialEq, Eq)]
pub struct Route {
    pub destination_cidr_block: Option<String>,
    pub gateway_id: Option<String>,
    pub nat_gateway_id: Option<String>,
    pub transit_gateway_id: Option<String>,
}

impl View for Route {
    type V = RouteView;

    open spec fn view(&self) -> RouteView {
        RouteView {
            destination_cidr_block: opt_text(self.destination_cidr_block),
            gateway_id: opt_text(self.gateway_id),
            nat_gateway_id: opt_text(self.nat_gateway_id),
            transit_gateway_id: opt_text(self.transit_gateway_id),
        }
    }
}

/// Model of a [`RouteTableAssociation`].
pub struct AssociationView {
    pub subnet_id: Option<Seq<char>>,
}

/// What a route table is attached to; a subnet where `subnet_id` is set.
#[derive(Debug, Clone, PartialEq, Eq)]
pub struct RouteTableAssociation {
    pub subnet_id: Option<String>,
}

impl View for RouteTableAssociation {
    type V = AssociationView;

    open spec fn view(&self) -> AssociationView {
        AssociationView { subnet_id: opt_text(self.subnet_id) }
    }
}

/// Model of a [`RouteTable`].
pub struct RouteTableView {
    pub route_table_id: Seq<char>,
    pub routes: Seq<RouteView>,
    pub associations: Seq<AssociationView>,
}

/// A route table with its routes and the subnets it is attached to.
#[derive(Debug, Clone, PartialEq, Eq)]
pub struct RouteTable {
    pub route_table_id: String,
    pub routes: Vec<Route>,
    pub associations: Vec<RouteTableAssociation>,
}

impl View for RouteTable {
    type V = RouteTableView;

    open spec fn view(&self) -> RouteTableView {
        RouteTableView {
            route_table_id: self.route_table_id@,
            routes: self.routes@.map_values(|r: Route| r@),
            associations: self.associations@.map_values(|a: RouteTableAssociation| a@),
        }
    }
}

/// The models of the route tables of `tables`.
pub open spec fn table_views(tables: Seq<RouteTable>) -> Seq<RouteTableView> {
    tables.map_values(|t: RouteTable| t@)
}

/// Model of a [`ClassicLoadBalancer`].
pub struct ClassicLoadBalancerView {
    pub load_balancer_name: Seq<char>,
    pub dns_name: Seq<char>,
    pub vpc_id: Seq<char>,
}

/// A load balancer of the classic kind.
#[derive(Debug, Clone, PartialEq, Eq)]
pub struct ClassicLoadBalancer {
    pub load_balancer_name: String,
    pub dns_name: String,
    pub vpc_id: String,
}

impl View for ClassicLoadBalancer {
    type V = ClassicLoadBalancerView;

    open spec fn view(&self) -> ClassicLoadBalancerView {
        ClassicLoadBalancerView {
            load_balancer_name: self.load_balancer_name@,
            dns_name: self.dns_name@,
            vpc_id: self.vpc_id@,
        }
    }
}

/// Model of an [`AvailabilityZone`].
pub struct AvailabilityZoneView {
    pub zone_name: Seq<char>,
    pub subnet_id: Seq<char>,
}

/// The subnet that a load balancer uses in one availability zone.
#[derive(Debug, Clone, PartialEq, Eq)]
pub struct AvailabilityZone {
    pub zone_name: String,
    pub subnet_id: String,
}

impl View for AvailabilityZone {
    type V = AvailabilityZoneView;

    open spec fn view(&self) -> AvailabilityZoneView {
        AvailabilityZoneView { zone_name: self.zone_name@, subnet_id: self.subnet_id@ }
    }
}

/// Model of a [`NetworkLoadBalancer`].
pub struct NetworkLoadBalancerView {
    pub load_balancer_arn: Seq<char>,
    pub load_balancer_name: Seq<char>,
    pub dns_name: Seq<char>,
    pub vpc_id: Seq<char>,
    pub availability_zones: Seq<AvailabilityZoneView>,
}

/// A load balancer of the modern kind.
#[derive(Debug, Clone, PartialEq, Eq)]
pub struct NetworkLoadBalancer {
    pub load_balancer_arn: String,
    pub load_balancer_name: String,
    pub dns_name: String,
    pub vpc_id: String,
    pub availability_zones: Vec<AvailabilityZone>,
}

impl View for NetworkLoadBalancer {
    type V = NetworkLoadBalancerView;

    open spec fn view(&self) -> NetworkLoadBalancerView {
        NetworkLoadBalancerView {
            load_balancer_arn: self.load_balancer_arn@,
            load_balancer_name: self.load_balancer_name@,
            dns_name: self.dns_name@,
            vpc_id: self.vpc_id@,
            availability_zones: self.availability_zones@.map_values(|z: AvailabilityZone| z@),
        }
    }
}

/// Model of an [`AWSLoadBalancer`].
pub enum LoadBalancerView {
    Classic(ClassicLoadBalancerView, Seq<TagView>),
    Modern(NetworkLoadBalancerView, Seq<TagView>),
}

impl LoadBalancerView {
    /// The DNS name under which the load balancer is reached.
    pub open spec fn dns_name(self) -> Seq<char> {
        match self {
            LoadBalancerView::Classic(c, _) => c.dns_name,
            LoadBalancerView::Modern(m, _) => m.dns_name,
        }
    }

    /// The name of the load balancer.
    pub open spec fn name(self) -> Seq<char> {
        match self {
            LoadBalancerView::Classic(c, _) => c.load_balancer_name,
            LoadBalancerView::Modern(m, _) => m.load_balancer_name,
        }
    }
}

/// A load balancer of either kind, with the tags fetched for it.
#[derive(Debug, Clone, PartialEq, Eq)]
pub enum AWSLoadBalancer {
    ClassicLoadBalancer(TaggedResource<ClassicLoadBalancer>),
    ModernLoadBalancer(TaggedResource<NetworkLoadBalancer>),
}

impl View for AWSLoadBalancer {
    type V = LoadBalancerView;

    open spec fn view(&self) -> LoadBalancerView {
        match self {
            AWSLoadBalancer::ClassicLoadBalancer(c) => LoadBalancerView::Classic(
                c@.resource,
                c@.tags,
            ),
            AWSLoadBalancer::ModernLoadBalancer(m) => LoadBalancerView::Modern(
                m@.resource,
                m@.tags,
            ),
        }
    }
}

/// The models of the load balancers of `lbs`.
pub open spec fn load_balancer_views(lbs: Seq<AWSLoadBalancer>) -> Seq<LoadBalancerView> {
    lbs.map_values(|l: AWSLoadBalancer| l@)
}

/// Model of a [`NetworkInterface`].
pub struct NetworkInterfaceView {
    pub network_interface_id: Seq<char>,
    pub subnet_id: Option<Seq<char>>,
}

/// A network interface that serves a load balancer, with the subnet that it
/// sits in where that is known.
#[derive(Debug, Clone, PartialEq, Eq)]
pub struct NetworkInterface {
    pub network_interface_id: String,
    pub subnet_id: Option<String>,
}

impl View for NetworkInterface {
    type V = NetworkInterfaceView;

    open spec fn view(&self) -> NetworkInterfaceView {
        NetworkInterfaceView {
            network_interface_id: self.network_interface_id@,
            subnet_id: opt_text(self.subnet_id),
        }
    }
}

/// The models of the network interfaces of `enis`.
pub open spec fn interface_views(enis: Seq<NetworkInterface>) -> Seq<NetworkInterfaceView> {
    enis.map_values(|e: NetworkInterface| e@)
}

/// Model of a [`ResourceRecordSet`].
pub struct RecordView {
    pub name: Seq<char>,
    pub alias_target: Option<Seq<char>>,
}

/// A DNS record set; an alias record carries the DNS name it points to.
#[derive(Debug, Clone, PartialEq, Eq)]
pub struct ResourceRecordSet {
    pub name: String,
    pub alias_target: Option<String>,
}

impl View for ResourceRecordSet {
    type V = RecordView;

    open spec fn view(&self) -> RecordView {
        RecordView { name: self.name@, alias_target: opt_text(self.alias_target) }
    }
}

/// Model of a [`HostedZone`].
pub struct HostedZoneView {
    pub id: Seq<char>,
    pub name: Seq<char>,
}

/// A DNS zone.
#[derive(Debug, Clone, PartialEq, Eq)]
pub struct HostedZone {
    pub id: String,
    pub name: String,
}

impl View for HostedZone {
    type V = HostedZoneView;

    open spec fn view(&self) -> HostedZoneView {
        HostedZoneView { id: self.id@, name: self.name@ }
    }
}

/// Model of a [`HostedZoneWithRecords`].
pub struct ZoneRecordsView {
    pub hosted_zone: HostedZoneView,
    pub resource_records: Seq<RecordView>,
}

/// A DNS zone together with its record sets.
#[derive(Debug, Clone, PartialEq, Eq)]
pub struct HostedZoneWithRecords {
    pub hosted_zone: HostedZone,
    pub resource_records: Vec<ResourceRecordSet>,
}

impl View for HostedZoneWithRecords {
    type V = ZoneRecordsView;

    open spec fn view(&self) -> ZoneRecordsView {
        ZoneRecordsView {
            hosted_zone: self.hosted_zone@,
            resource_records: self.resource_records@.map_values(|r: ResourceRecordSet| r@),
        }
    }
}

/// The models of the zones of `zones`.
pub open spec fn zone_views(zones: Seq<HostedZoneWithRecords>) -> Seq<ZoneRecordsView> {
    zones.map_values(|z: HostedZoneWithRecords| z@)
}

/// An instance profile attached to a machine.
#[derive(Debug, Clone, PartialEq, Eq)]
pub struct IamInstanceProfile {
    pub id: String,
    pub arn: String,
}

/// A machine of the cluster.
#[derive(Debug, Clone, PartialEq, Eq)]
pub struct Instance {
    pub instance_id: String,
    pub subnet_id: String,
    pub vpc_id: String,
    pub iam_instance_profile: IamInstanceProfile,
}

} // verus!
