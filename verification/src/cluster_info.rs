//! Reading what the audit needs from the description of a cluster that the
//! cluster's management service gives out as JSON.

use serde_json::Value;
use vstd::prelude::*;
use vstd::string::StringExecFns;
use crate::text::{join, joined, same_text, split_terminated, split_terminator};
use crate::types::{ClusterInfoView, ClusterType, InvariantError, MinimalClusterInfo};

verus! {

/// Where the description holds the explicit subnets of the cluster.
pub const SUBNET_IDS_AT: &'static str = "/aws/subnet_ids";

/// Where the description says whether the control plane is hosted.
pub const HYPERSHIFT_AT: &'static str = "/hypershift/enabled";

/// Where the description names the product.
pub const PRODUCT_AT: &'static str = "/product/id";

/// Where the description holds the identifier of the cluster.
pub const ID_AT: &'static str = "/id";

/// Where the description holds the infra name of the cluster.
pub const INFRA_ID_AT: &'static str = "/infra_id";

/// Where the description names the cloud provider.
pub const CLOUD_PROVIDER_AT: &'static str = "/cloud_provider/id";

/// Where the description holds the URL of the cluster's API.
pub const API_URL_AT: &'static str = "/api/url";

/// Model of a [`JsonNode`].
pub enum JsonNodeView {
    Null,
    Bool(bool),
    Number,
    Text(Seq<char>),
    Array(Seq<Option<Seq<char>>>),
    Object,
}

/// One value of a JSON document, as far as the audit reads it: a text in
/// full, of a list those items that are texts, of anything else its kind.
#[derive(Debug, Clone, PartialEq, Eq)]
pub enum JsonNode {
    Null,
    Bool(bool),
    Number,
    Text(String),
    Array(Vec<Option<String>>),
    Object,
}

impl View for JsonNode {
    type V = JsonNodeView;

    open spec fn view(&self) -> JsonNodeView {
        match self {
            JsonNode::Null => JsonNodeView::Null,
            JsonNode::Bool(b) => JsonNodeView::Bool(*b),
            JsonNode::Number => JsonNodeView::Number,
            JsonNode::Text(s) => JsonNodeView::Text(s@),
            JsonNode::Array(items) => JsonNodeView::Array(
                items@.map_values(|i: Option<String>| crate::resources::opt_text(i)),
            ),
            JsonNode::Object => JsonNodeView::Object,
        }
    }
}

/// The model of a node that may be absent.
pub open spec fn node_view(node: Option<JsonNode>) -> Option<JsonNodeView> {
    match node {
        Some(n) => Some(n@),
        None => None,
    }
}

/// The models of the nodes of `nodes`.
pub open spec fn node_views(nodes: Seq<Option<JsonNode>>) -> Seq<Option<JsonNodeView>> {
    nodes.map_values(|n: Option<JsonNode>| node_view(n))
}

/// What `serde_json` finds in the JSON document `text` under each of the
/// JSON pointers `pointers`; `None` where `text` is no JSON document.
pub uninterp spec fn json_nodes(text: Seq<char>, pointers: Seq<Seq<char>>) -> Option<
    Seq<Option<JsonNodeView>>,
>;

/// `serde_json::from_str` into a `serde_json::Value`, then
/// `serde_json::Value::pointer` for each pointer; each value found is handed
/// over by its kind, with its content where it is a truth value, a text or a
/// list. Trusted: the answer is determined by the text and the pointers, and
/// where the text parses there is one answer for each pointer, in order.
#[verifier::external_body]
fn nodes_at(text: &str, pointers: &Vec<&str>) -> (found: Option<Vec<Option<JsonNode>>>)
    ensures
        json_nodes(text@, pointers@.map_values(|p: &str| p@)) == match found {
            Some(nodes) => Some(node_views(nodes@)),
            None => None,
        },
        found matches Some(nodes) ==> nodes.len() == pointers.len(),
{
    let document = serde_json::from_str::<Value>(text).ok()?;
    let item = |value: &Value| match value {
        Value::String(s) => Some(s.clone()),
        _ => None,
    };
    let node = |value: &Value| match value {
        Value::Null => JsonNode::Null,
        Value::Bool(b) => JsonNode::Bool(*b),
        Value::Number(_) => JsonNode::Number,
        Value::String(s) => JsonNode::Text(s.clone()),
        Value::Array(a) => JsonNode::Array(a.iter().map(item).collect()),
        Value::Object(_) => JsonNode::Object,
    };
    Some(pointers.iter().map(|p| document.pointer(p).map(node)).collect())
}

/// Model of a [`ClusterDocument`].
pub struct ClusterDocumentView {
    pub subnet_ids: Option<JsonNodeView>,
    pub hypershift_enabled: Option<JsonNodeView>,
    pub product_id: Option<JsonNodeView>,
    pub id: Option<JsonNodeView>,
    pub infra_id: Option<JsonNodeView>,
    pub cloud_provider_id: Option<JsonNodeView>,
    pub api_url: Option<JsonNodeView>,
}

/// The values of a cluster's description that the audit reads, each absent
/// where the description does not hold it.
#[derive(Debug, Clone, PartialEq, Eq)]
pub struct ClusterDocument {
    pub subnet_ids: Option<JsonNode>,
    pub hypershift_enabled: Option<JsonNode>,
    pub product_id: Option<JsonNode>,
    pub id: Option<JsonNode>,
    pub infra_id: Option<JsonNode>,
    pub cloud_provider_id: Option<JsonNode>,
    pub api_url: Option<JsonNode>,
}

impl View for ClusterDocument {
    type V = ClusterDocumentView;

    open spec fn view(&self) -> ClusterDocumentView {
        ClusterDocumentView {
            subnet_ids: node_view(self.subnet_ids),
            hypershift_enabled: node_view(self.hypershift_enabled),
            product_id: node_view(self.product_id),
            id: node_view(self.id),
            infra_id: node_view(self.infra_id),
            cloud_provider_id: node_view(self.cloud_provider_id),
            api_url: node_view(self.api_url),
        }
    }
}

/// The pointers that are looked up in a description, in the order of the
/// fields of a [`ClusterDocument`].
pub open spec fn document_pointers() -> Seq<Seq<char>> {
    seq![
        SUBNET_IDS_AT@,
        HYPERSHIFT_AT@,
        PRODUCT_AT@,
        ID_AT@,
        INFRA_ID_AT@,
        CLOUD_PROVIDER_AT@,
        API_URL_AT@,
    ]
}

/// The document made of the answers to `document_pointers`.
pub open spec fn document_of(nodes: Seq<Option<JsonNodeView>>) -> ClusterDocumentView {
    ClusterDocumentView {
        subnet_ids: nodes[0],
        hypershift_enabled: nodes[1],
        product_id: nodes[2],
        id: nodes[3],
        infra_id: nodes[4],
        cloud_provider_id: nodes[5],
        api_url: nodes[6],
    }
}

/// The explanation for a text that is no JSON document.
pub open spec fn not_json() -> Seq<char> {
    "failed to parse json"@
}

/// The explanation for a subnet that is not given as a text.
pub open spec fn subnet_not_text() -> Seq<char> {
    "converting subnet to str failed"@
}

/// The explanation for a cluster of no known type.
pub open spec fn unknown_product() -> Seq<char> {
    "Could not determine product - only OSD (on AWS), Rosa and Hypershift are supported."@
}

/// The explanation for a hosted-control-plane cluster without identifier.
pub open spec fn no_id() -> Seq<char> {
    "did not find an id for the cluster"@
}

/// The explanation for a cluster without infra name.
pub open spec fn no_infra_id() -> Seq<char> {
    "did not find a infra id for the cluster"@
}

/// The explanation for a cluster without cloud provider.
pub open spec fn no_cloud_provider() -> Seq<char> {
    "did not find a cloud provider for the cluster"@
}

/// The explanation for an API URL of unexpected form.
pub open spec fn no_base_domain() -> Seq<char> {
    "could not determine the base domain from the API URL"@
}

/// The text of a node that is a text.
pub open spec fn text_of(node: Option<JsonNodeView>) -> Option<Seq<char>> {
    match node {
        Some(JsonNodeView::Text(s)) => Some(s),
        _ => None,
    }
}

/// Every item of a list is a text.
pub open spec fn all_texts(items: Seq<Option<Seq<char>>>) -> bool {
    forall|k: int| 0 <= k < items.len() ==> (#[trigger] items[k]) is Some
}

/// The subnets that the description lists; none where it holds no list.
/// `None` where an item of the list is not a text.
pub open spec fn subnets_of(node: Option<JsonNodeView>) -> Option<Seq<Seq<char>>> {
    match node {
        Some(JsonNodeView::Array(items)) => if all_texts(items) {
            Some(items.map_values(|i: Option<Seq<char>>| i->0))
        } else {
            None
        },
        _ => Some(Seq::empty()),
    }
}

/// The type of the cluster: hosted control plane where the description says
/// so, else by the product, which must be `osd` or `rosa`.
pub open spec fn cluster_type_of(document: ClusterDocumentView) -> Option<ClusterType> {
    if document.hypershift_enabled == Some(JsonNodeView::Bool(true)) {
        Some(ClusterType::Hypershift)
    } else if text_of(document.product_id) == Some("osd"@) {
        Some(ClusterType::Osd)
    } else if text_of(document.product_id) == Some("rosa"@) {
        Some(ClusterType::Rosa)
    } else {
        None
    }
}

/// The base domain in the URL of the API. The URL has a scheme, a host and
/// a port, set apart by colons; the base domain is the host without its
/// first two labels. `None` where the URL is not of this form.
pub open spec fn base_domain_of(url: Seq<char>) -> Option<Seq<char>> {
    let without_port = split_terminated(url, ':');
    if without_port.len() != 3 {
        None
    } else {
        let labels = split_terminated(without_port[1], '.');
        if labels.len() < 2 {
            None
        } else {
            Some(joined(labels.skip(2), "."@))
        }
    }
}

/// What the description says of the cluster `cluster_id`, or why it cannot be
/// used.
pub open spec fn cluster_info_of(cluster_id: Seq<char>, document: ClusterDocumentView) -> Result<
    ClusterInfoView,
    Seq<char>,
> {
    let subnets = subnets_of(document.subnet_ids);
    let cluster_type = cluster_type_of(document);
    let infra = if cluster_type == Some(ClusterType::Hypershift) {
        text_of(document.id)
    } else {
        text_of(document.infra_id)
    };
    let provider = text_of(document.cloud_provider_id);
    let url = text_of(document.api_url);
    if subnets is None {
        Err(subnet_not_text())
    } else if cluster_type is None {
        Err(unknown_product())
    } else if infra is None {
        Err(if cluster_type == Some(ClusterType::Hypershift) {
            no_id()
        } else {
            no_infra_id()
        })
    } else if provider is None {
        Err(no_cloud_provider())
    } else if url is Some && base_domain_of(url->0) is None {
        Err(no_base_domain())
    } else {
        Ok(
            ClusterInfoView {
                cluster_id,
                cluster_infra_name: infra->0,
                cluster_type: cluster_type->0,
                cloud_provider: provider->0,
                subnets: subnets->0,
                base_domain: if url is Some {
                    base_domain_of(url->0)
                } else {
                    None
                },
            },
        )
    }
}

/// The model of the outcome of reading a description.
pub open spec fn outcome_view(outcome: Result<MinimalClusterInfo, InvariantError>) -> Result<
    ClusterInfoView,
    Seq<char>,
> {
    match outcome {
        Ok(info) => Ok(info@),
        Err(e) => Err(e@),
    }
}

fn node_text(node: &Option<JsonNode>) -> (text: Option<String>)
    ensures
        crate::resources::opt_text(text) == text_of(node_view(*node)),
{
    match node {
        Some(JsonNode::Text(s)) => Some(s.clone()),
        _ => None,
    }
}

fn listed_subnets(node: &Option<JsonNode>) -> (subnets: Option<Vec<String>>)
    ensures
        match subnets {
            Some(ids) => subnets_of(node_view(*node)) == Some(ids@.map_values(|s: String| s@)),
            None => subnets_of(node_view(*node)) is None,
        },
{
    let mut ids: Vec<String> = Vec::new();
    match node {
        Some(JsonNode::Array(items)) => {
            let ghost views = items@.map_values(|i: Option<String>| crate::resources::opt_text(i));
            let mut k: usize = 0;
            while k < items.len()
                invariant
                    k <= items.len(),
                    views == items@.map_values(|i: Option<String>| crate::resources::opt_text(i)),
                    node_view(*node) == Some(JsonNodeView::Array(views)),
                    forall|j: int| 0 <= j < k ==> (#[trigger] views[j]) is Some,
                    ids@.map_values(|s: String| s@) == views.take(k as int).map_values(
                        |i: Option<Seq<char>>| i->0,
                    ),
                decreases items.len() - k,
            {
                let ghost before = ids@.map_values(|s: String| s@);
                match &items[k] {
                    Some(id) => {
                        ids.push(id.clone());
                        assert(views[k as int] == Some(id@));
                        assert(ids@.map_values(|s: String| s@) =~= before.push(id@));
                        assert(views.take(k + 1).map_values(|i: Option<Seq<char>>| i->0)
                            =~= before.push(id@));
                    },
                    None => {
                        assert(views[k as int] is None);
                        assert(!all_texts(views));
                        return None;
                    },
                }
                k = k + 1;
            }
            assert(views.take(k as int) =~= views);
            Some(ids)
        },
        _ => {
            assert(ids@.map_values(|s: String| s@) =~= Seq::empty());
            Some(ids)
        },
    }
}

fn cluster_type(document: &ClusterDocument) -> (found: Option<ClusterType>)
    ensures
        found == cluster_type_of(document@),
{
    let hosted = match &document.hypershift_enabled {
        Some(JsonNode::Bool(enabled)) => *enabled,
        _ => false,
    };
    if hosted {
        return Some(ClusterType::Hypershift);
    }
    match node_text(&document.product_id) {
        Some(product) => {
            if same_text(&product, "osd") {
                Some(ClusterType::Osd)
            } else if same_text(&product, "rosa") {
                Some(ClusterType::Rosa)
            } else {
                None
            }
        },
        None => None,
    }
}

/// The base domain in the URL of the API, where the URL has a scheme, a host
/// and a port.
pub fn base_domain(url: &str) -> (domain: Option<String>)
    ensures
        crate::resources::opt_text(domain) == base_domain_of(url@),
{
    let without_port = split_terminator(url, ':');
    if without_port.len() != 3 {
        return None;
    }
    let labels = split_terminator(without_port[1].as_str(), '.');
    if labels.len() < 2 {
        return None;
    }
    let ghost all = labels@.map_values(|s: String| s@);
    let mut rest: Vec<String> = Vec::new();
    let mut k: usize = 2;
    assert(all.skip(2).take(0) =~= rest@.map_values(|s: String| s@));
    while k < labels.len()
        invariant
            2 <= k <= labels.len(),
            all == labels@.map_values(|s: String| s@),
            rest@.map_values(|s: String| s@) == all.skip(2).take(k - 2),
        decreases labels.len() - k,
    {
        let ghost before = rest@.map_values(|s: String| s@);
        rest.push(labels[k].clone());
        assert(rest@.map_values(|s: String| s@) =~= before.push(all[k as int]));
        assert(all.skip(2).take(k - 1) =~= all.skip(2).take(k - 2).push(all[k as int]));
        k = k + 1;
    }
    assert(all.skip(2).take(k - 2) =~= all.skip(2));
    Some(join(&rest, "."))
}

impl MinimalClusterInfo {
    /// Reads what the audit needs from the values of a description.
    pub fn from_document(cluster_id: &String, document: &ClusterDocument) -> (outcome: Result<
        MinimalClusterInfo,
        InvariantError,
    >)
        ensures
            outcome_view(outcome) == cluster_info_of(cluster_id@, document@),
    {
        let subnets = match listed_subnets(&document.subnet_ids) {
            Some(ids) => ids,
            None => {
                return Err(InvariantError::new("converting subnet to str failed"));
            },
        };
        let cluster_type = match cluster_type(document) {
            Some(found) => found,
            None => {
                return Err(
                    InvariantError::new(
                        "Could not determine product - only OSD (on AWS), Rosa and Hypershift are supported.",
                    ),
                );
            },
        };
        let hosted = match cluster_type {
            ClusterType::Hypershift => true,
            _ => false,
        };
        let infra = if hosted {
            node_text(&document.id)
        } else {
            node_text(&document.infra_id)
        };
        let cluster_infra_name = match infra {
            Some(name) => name,
            None => {
                if hosted {
                    return Err(InvariantError::new("did not find an id for the cluster"));
                } else {
                    return Err(InvariantError::new("did not find a infra id for the cluster"));
                }
            },
        };
        let cloud_provider = match node_text(&document.cloud_provider_id) {
            Some(provider) => provider,
            None => {
                return Err(InvariantError::new("did not find a cloud provider for the cluster"));
            },
        };
        let base_domain = match node_text(&document.api_url) {
            Some(url) => match base_domain(url.as_str()) {
                Some(domain) => Some(domain),
                None => {
                    return Err(
                        InvariantError::new("could not determine the base domain from the API URL"),
                    );
                },
            },
            None => None,
        };
        Ok(
            MinimalClusterInfo {
                cluster_id: cluster_id.clone(),
                cluster_infra_name,
                cluster_type,
                cloud_provider,
                subnets,
                base_domain,
            },
        )
    }

    /// Reads what the audit needs from the description of the cluster
    /// `clusterid`, given as JSON text.
    pub fn get_cluster_info(clusterid: &String, cluster_json: &str) -> (outcome: Result<
        MinimalClusterInfo,
        InvariantError,
    >)
        ensures
            outcome_view(outcome) == match json_nodes(cluster_json@, document_pointers()) {
                Some(nodes) => cluster_info_of(clusterid@, document_of(nodes)),
                None => Err(not_json()),
            },
    {
        let mut pointers: Vec<&str> = Vec::new();
        pointers.push(SUBNET_IDS_AT);
        pointers.push(HYPERSHIFT_AT);
        pointers.push(PRODUCT_AT);
        pointers.push(ID_AT);
        pointers.push(INFRA_ID_AT);
        pointers.push(CLOUD_PROVIDER_AT);
        pointers.push(API_URL_AT);
        assert(pointers@.map_values(|p: &str| p@) =~= document_pointers());
        match nodes_at(cluster_json, &pointers) {
            Some(nodes) => {
                let mut nodes = nodes;
                let api_url = nodes.pop().unwrap();
                let cloud_provider_id = nodes.pop().unwrap();
                let infra_id = nodes.pop().unwrap();
                let id = nodes.pop().unwrap();
                let product_id = nodes.pop().unwrap();
                let hypershift_enabled = nodes.pop().unwrap();
                let subnet_ids = nodes.pop().unwrap();
                let document = ClusterDocument {
                    subnet_ids,
                    hypershift_enabled,
                    product_id,
                    id,
                    infra_id,
                    cloud_provider_id,
                    api_url,
                };
                MinimalClusterInfo::from_document(clusterid, &document)
            },
            None => Err(InvariantError::new("failed to parse json")),
        }
    }

    /// Whether the cluster runs on the one cloud that the checks know.
    pub fn is_on_aws(&self) -> (supported: bool)
        ensures
            supported == (self@.cloud_provider == "aws"@),
    {
        same_text(&self.cloud_provider, "aws")
    }
}

} // verus!
