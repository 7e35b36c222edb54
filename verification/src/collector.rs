//! Strategies that tell from one tag whether a load balancer serves the
//! default ingress of the cluster under audit.

use vstd::prelude::*;
use vstd::string::StringExecFns;
use crate::resources::{Tag, TagView, tag_views};
use crate::text::{contains, occurs_in, same_text};
use crate::types::{ClusterInfoView, ClusterType, MinimalClusterInfo};

verus! {

/// The tag key under which a hosted-control-plane cluster names the service
/// that a load balancer belongs to.
pub const DEFAULT_ROUTER_TAG_HYPERSHIFT: &'static str = "kubernetes.io/service-name";

/// The service that serves the default ingress.
pub const DEFAULT_ROUTER_VALUE_HYPERSHIFT: &'static str = "openshift-ingress/router-default";

/// The name of the default router.
pub const DEFAULT_ROUTER_TAG: &'static str = "openshift-ingress/router-default";

/// How the key of a cluster-ownership tag begins.
pub const CLUSTER_TAG_PREFIX: &'static str = "kubernetes.io/cluster/";

/// The rule for hosted-control-plane clusters: exactly the reserved key with
/// exactly the reserved value.
pub open spec fn hypershift_matches(tag: TagView) -> bool {
    &&& tag.key == Some(DEFAULT_ROUTER_TAG_HYPERSHIFT@)
    &&& tag.value == Some(DEFAULT_ROUTER_VALUE_HYPERSHIFT@)
}

/// The rule for conventional clusters: the key holds the ownership tag of
/// the cluster, by its identifier or by its infra name, and the value is
/// `owned` or `shared`.
pub open spec fn default_matches(tag: TagView, cluster_id: Seq<char>, infra_name: Seq<char>) -> bool {
    &&& tag.key matches Some(key)
    &&& tag.value matches Some(value)
    &&& occurs_in(CLUSTER_TAG_PREFIX@ + cluster_id, key) || occurs_in(
        CLUSTER_TAG_PREFIX@ + infra_name,
        key,
    )
    &&& value == "owned"@ || value == "shared"@
}

/// A strategy that decides on one tag.
pub trait Collector {
    /// The tags that the strategy accepts.
    spec fn matches(&self, tag: TagView) -> bool;

    /// Whether the tag marks its resource as the cluster's.
    fn match_tag(&self, t: Tag) -> (matched: bool)
        ensures
            matched == self.matches(t@),
    ;
}

/// The strategy for hosted-control-plane clusters.
#[derive(Debug, Clone, Copy, PartialEq, Eq)]
pub struct HypershiftCollector;

/// The strategy for conventional clusters.
#[derive(Debug, Clone, Copy, PartialEq, Eq)]
pub struct DefaultCollector<'a> {
    pub cluster_id: &'a String,
    pub cluster_infra_name: &'a String,
}

impl Collector for HypershiftCollector {
    open spec fn matches(&self, tag: TagView) -> bool {
        hypershift_matches(tag)
    }

    fn match_tag(&self, t: Tag) -> (matched: bool) {
        match (&t.key, &t.value) {
            (Some(key), Some(value)) => same_text(key, DEFAULT_ROUTER_TAG_HYPERSHIFT) && same_text(
                value,
                DEFAULT_ROUTER_VALUE_HYPERSHIFT,
            ),
            _ => false,
        }
    }
}

impl<'a> Collector for DefaultCollector<'a> {
    open spec fn matches(&self, tag: TagView) -> bool {
        default_matches(tag, self.cluster_id@, self.cluster_infra_name@)
    }

    fn match_tag(&self, t: Tag) -> (matched: bool) {
        let mut cluster_id_tag = String::from_str(CLUSTER_TAG_PREFIX);
        cluster_id_tag.append(self.cluster_id.as_str());
        let mut cluster_name_tag = String::from_str(CLUSTER_TAG_PREFIX);
        cluster_name_tag.append(self.cluster_infra_name.as_str());
        match (&t.key, &t.value) {
            (Some(key), Some(value)) => {
                (contains(key.as_str(), cluster_id_tag.as_str()) || contains(
                    key.as_str(),
                    cluster_name_tag.as_str(),
                )) && (same_text(value, "owned") || same_text(value, "shared"))
            },
            _ => false,
        }
    }
}

/// The rule that applies to a cluster, by its type.
pub open spec fn cluster_matches(cluster: ClusterInfoView, tag: TagView) -> bool {
    if cluster.cluster_type == ClusterType::Hypershift {
        hypershift_matches(tag)
    } else {
        default_matches(tag, cluster.cluster_id, cluster.cluster_infra_name)
    }
}

/// The strategy of one run, chosen by the type of the cluster.
#[derive(Debug, Clone, Copy, PartialEq, Eq)]
pub enum ClusterCollector<'a> {
    Hypershift(HypershiftCollector),
    Default(DefaultCollector<'a>),
}

impl<'a> ClusterCollector<'a> {
    /// Chooses the strategy for the cluster: the strict one for a
    /// hosted-control-plane cluster, the conventional one for any other.
    pub fn for_cluster(cluster_info: &'a MinimalClusterInfo) -> (collector: ClusterCollector<'a>)
        ensures
            forall|tag: TagView| #[trigger] collector.matches(tag) == cluster_matches(cluster_info@, tag),
            collector is Hypershift <==> cluster_info@.cluster_type == ClusterType::Hypershift,
    {
        match cluster_info.cluster_type {
            ClusterType::Hypershift => ClusterCollector::Hypershift(HypershiftCollector),
            _ => ClusterCollector::Default(
                DefaultCollector {
                    cluster_id: &cluster_info.cluster_id,
                    cluster_infra_name: &cluster_info.cluster_infra_name,
                },
            ),
        }
    }

    /// Whether one of the tags marks its resource as the cluster's.
    pub fn match_any(&self, tags: &Vec<Tag>) -> (matched: bool)
        ensures
            matched == exists|k: int|
                0 <= k < tags.len() && self.matches(#[trigger] tag_views(tags@)[k]),
    {
        let mut k: usize = 0;
        while k < tags.len()
            invariant
                k <= tags.len(),
                forall|j: int| 0 <= j < k ==> !self.matches(#[trigger] tag_views(tags@)[j]),
            decreases tags.len() - k,
        {
            let tag = Tag { key: tags[k].key.clone(), value: tags[k].value.clone() };
            assert(tag@ == tag_views(tags@)[k as int]);
            if self.match_tag(tag) {
                return true;
            }
            k = k + 1;
        }
        false
    }
}

impl<'a> Collector for ClusterCollector<'a> {
    open spec fn matches(&self, tag: TagView) -> bool {
        match self {
            ClusterCollector::Hypershift(h) => h.matches(tag),
            ClusterCollector::Default(d) => d.matches(tag),
        }
    }

    fn match_tag(&self, t: Tag) -> (matched: bool) {
        match self {
            ClusterCollector::Hypershift(h) => h.match_tag(t),
            ClusterCollector::Default(d) => d.match_tag(t),
        }
    }
}

} // verus!
