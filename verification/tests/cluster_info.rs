use cluster_vpc_check::cluster_info::{base_domain, ClusterDocument, JsonNode};
use cluster_vpc_check::types::{ClusterType, InvariantError, MinimalClusterInfo};

const ROSA: &str = r#"{
  "id": "2abc",
  "infra_id": "mycluster-x7k2p",
  "product": {"id": "rosa"},
  "cloud_provider": {"id": "aws"},
  "aws": {"subnet_ids": ["subnet-1", "subnet-2"]},
  "api": {"url": "https://api.mycluster.abcd.p1.openshiftapps.com:6443"},
  "hypershift": {"enabled": false},
  "nodes": {"compute": 3}
}"#;

fn info(json: &str) -> Result<MinimalClusterInfo, InvariantError> {
    MinimalClusterInfo::get_cluster_info(&"2abc".to_string(), json)
}

fn error(json: &str) -> String {
    info(json).unwrap_err().description()
}

fn text(s: &str) -> Option<JsonNode> {
    Some(JsonNode::Text(s.to_string()))
}

fn document() -> ClusterDocument {
    ClusterDocument {
        subnet_ids: None,
        hypershift_enabled: None,
        product_id: text("osd"),
        id: text("2abc"),
        infra_id: text("infra-1"),
        cloud_provider_id: text("aws"),
        api_url: None,
    }
}

#[test]
fn rosa_cluster_is_read_from_json() {
    let found = info(ROSA).unwrap();
    assert_eq!(
        found,
        MinimalClusterInfo {
            cluster_id: "2abc".to_string(),
            cluster_infra_name: "mycluster-x7k2p".to_string(),
            cluster_type: ClusterType::Rosa,
            cloud_provider: "aws".to_string(),
            subnets: vec!["subnet-1".to_string(), "subnet-2".to_string()],
            base_domain: Some("abcd.p1.openshiftapps.com".to_string()),
        }
    );
    assert!(found.is_on_aws());
}

#[test]
fn hosted_control_plane_takes_its_id_as_infra_name() {
    let json = r#"{"id": "hcp-1", "infra_id": "ignored", "product": {"id": "rosa"},
                   "hypershift": {"enabled": true}, "cloud_provider": {"id": "aws"}}"#;
    let found = info(json).unwrap();
    assert_eq!(found.cluster_type, ClusterType::Hypershift);
    assert_eq!(found.cluster_infra_name, "hcp-1");
    assert_eq!(found.cluster_id, "2abc");
    assert!(found.subnets.is_empty());
    assert_eq!(found.base_domain, None);
}

#[test]
fn osd_cluster_without_subnets() {
    let json = r#"{"infra_id": "osd-1", "product": {"id": "osd"},
                   "cloud_provider": {"id": "gcp"}, "aws": {"subnet_ids": []}}"#;
    let found = info(json).unwrap();
    assert_eq!(found.cluster_type, ClusterType::Osd);
    assert!(found.subnets.is_empty());
    assert_eq!(found.cloud_provider, "gcp");
    assert!(!found.is_on_aws());
}

#[test]
fn text_that_is_no_json_is_refused() {
    assert_eq!(error("{\"id\": "), "failed to parse json");
    assert_eq!(error(""), "failed to parse json");
}

#[test]
fn subnet_that_is_no_text_is_refused() {
    let json = r#"{"infra_id": "i", "product": {"id": "osd"}, "cloud_provider": {"id": "aws"},
                   "aws": {"subnet_ids": ["subnet-1", 7]}}"#;
    assert_eq!(error(json), "converting subnet to str failed");
}

#[test]
fn unknown_product_is_refused() {
    let json = r#"{"infra_id": "i", "product": {"id": "aro"}, "cloud_provider": {"id": "aws"}}"#;
    assert_eq!(
        error(json),
        "Could not determine product - only OSD (on AWS), Rosa and Hypershift are supported."
    );
    assert_eq!(
        error("[1, 2]"),
        "Could not determine product - only OSD (on AWS), Rosa and Hypershift are supported."
    );
}

#[test]
fn missing_names_are_refused() {
    let json = r#"{"product": {"id": "osd"}, "cloud_provider": {"id": "aws"}}"#;
    assert_eq!(error(json), "did not find a infra id for the cluster");
    let json = r#"{"hypershift": {"enabled": true}, "cloud_provider": {"id": "aws"}}"#;
    assert_eq!(error(json), "did not find an id for the cluster");
    let json = r#"{"infra_id": "i", "product": {"id": "osd"}}"#;
    assert_eq!(error(json), "did not find a cloud provider for the cluster");
}

#[test]
fn api_url_without_port_is_refused() {
    let json = r#"{"infra_id": "i", "product": {"id": "osd"}, "cloud_provider": {"id": "aws"},
                   "api": {"url": "https://api.c.example.com"}}"#;
    assert_eq!(error(json), "could not determine the base domain from the API URL");
}

#[test]
fn base_domain_drops_the_first_two_labels() {
    assert_eq!(
        base_domain("https://api.c1.example.com:6443"),
        Some("example.com".to_string())
    );
    assert_eq!(base_domain("https://api.c1:6443"), Some(String::new()));
    assert_eq!(base_domain("https://api.c1.a.b.c.d:6443"), Some("a.b.c.d".to_string()));
    assert_eq!(base_domain("https://api:6443"), None);
    assert_eq!(base_domain("https://api.c1.example.com"), None);
    assert_eq!(base_domain("https://api.c1.example.com:6443:"), Some("example.com".to_string()));
    assert_eq!(base_domain("https://api.c1.example.com:6443:x"), None);
    assert_eq!(base_domain(""), None);
}

#[test]
fn document_decides_without_json() {
    let found = MinimalClusterInfo::from_document(&"c".to_string(), &document()).unwrap();
    assert_eq!(found.cluster_type, ClusterType::Osd);
    assert_eq!(found.cluster_infra_name, "infra-1");

    let mut hosted = document();
    hosted.hypershift_enabled = Some(JsonNode::Bool(true));
    let found = MinimalClusterInfo::from_document(&"c".to_string(), &hosted).unwrap();
    assert_eq!(found.cluster_type, ClusterType::Hypershift);
    assert_eq!(found.cluster_infra_name, "2abc");

    let mut listed = document();
    listed.subnet_ids = Some(JsonNode::Array(vec![Some("s1".to_string()), None]));
    let refused = MinimalClusterInfo::from_document(&"c".to_string(), &listed).unwrap_err();
    assert_eq!(refused.msg, "converting subnet to str failed");

    let mut odd = document();
    odd.subnet_ids = text("subnet-1");
    odd.hypershift_enabled = text("true");
    let found = MinimalClusterInfo::from_document(&"c".to_string(), &odd).unwrap();
    assert!(found.subnets.is_empty());
    assert_eq!(found.cluster_type, ClusterType::Osd);
}

#[test]
fn new_description_has_the_defaults() {
    let found = MinimalClusterInfo::new("c1".to_string());
    assert_eq!(found.cluster_id, "c1");
    assert_eq!(found.cluster_infra_name, "");
    assert_eq!(found.cluster_type, ClusterType::Osd);
    assert_eq!(found.cloud_provider, "AWS");
    assert!(found.subnets.is_empty());
    assert_eq!(found.base_domain, None);
}
