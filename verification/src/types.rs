//! Findings and their grading, and what is known of the cluster under audit.

use vstd::prelude::*;
use vstd::string::StringExecFns;

verus! {

/// An expected property of the input did not hold; the run cannot go on.
#[derive(Debug, Clone, PartialEq, Eq)]
pub struct InvariantError {
    pub msg: String,
}

impl View for InvariantError {
    type V = Seq<char>;

    open spec fn view(&self) -> Seq<char> {
        self.msg@
    }
}

impl InvariantError {
    /// An error that explains itself with `msg`.
    pub fn new(msg: &str) -> (e: InvariantError)
        ensures
            e@ == msg@,
    {
        InvariantError { msg: String::from_str(msg) }
    }

    /// The explanation, as it is shown to the operator.
    pub fn description(&self) -> (text: String)
        ensures
            text@ == self@,
    {
        self.msg.clone()
    }
}

/// The flavour of the cluster, which decides how its resources are tagged.
#[derive(Debug, Clone, Copy, PartialEq, Eq, Structural)]
pub enum ClusterType {
    Osd,
    Rosa,
    Hypershift,
}

/// Model of a [`MinimalClusterInfo`].
pub struct ClusterInfoView {
    pub cluster_id: Seq<char>,
    pub cluster_infra_name: Seq<char>,
    pub cluster_type: ClusterType,
    pub cloud_provider: Seq<char>,
    pub subnets: Seq<Seq<char>>,
    pub base_domain: Option<Seq<char>>,
}

impl ClusterInfoView {
    /// The cluster runs in a network that was set up for it beforehand, with
    /// an explicit list of subnets.
    pub open spec fn is_byovpc(self) -> bool {
        self.subnets.len() > 0
    }
}

/// What the audit needs to know of a cluster.
#[derive(Debug, Clone, PartialEq, Eq)]
pub struct MinimalClusterInfo {
    pub cluster_id: String,
    pub cluster_infra_name: String,
    pub cluster_type: ClusterType,
    pub cloud_provider: String,
    pub subnets: Vec<String>,
    pub base_domain: Option<String>,
}

impl View for MinimalClusterInfo {
    type V = ClusterInfoView;

    open spec fn view(&self) -> ClusterInfoView {
        ClusterInfoView {
            cluster_id: self.cluster_id@,
            cluster_infra_name: self.cluster_infra_name@,
            cluster_type: self.cluster_type,
            cloud_provider: self.cloud_provider@,
            subnets: self.subnets@.map_values(|s: String| s@),
            base_domain: match self.base_domain {
                Some(d) => Some(d@),
                None => None,
            },
        }
    }
}

impl MinimalClusterInfo {
    /// The description of a cluster of which only the identifier is known: no
    /// infra name, of type OSD, on AWS, without explicit subnets or base
    /// domain.
    pub fn new(cluster_id: String) -> (info: MinimalClusterInfo)
        ensures
            info@ == (ClusterInfoView {
                cluster_id: cluster_id@,
                cluster_infra_name: Seq::empty(),
                cluster_type: ClusterType::Osd,
                cloud_provider: "AWS"@,
                subnets: Seq::empty(),
                base_domain: None,
            }),
    {
        let info = MinimalClusterInfo {
            cluster_id,
            cluster_infra_name: String::new(),
            cluster_type: ClusterType::Osd,
            cloud_provider: String::from_str("AWS"),
            subnets: Vec::new(),
            base_domain: None,
        };
        assert(info@.subnets =~= Seq::empty());
        info
    }
}

/// How urgent a finding is.
#[derive(Debug, Clone, Copy, PartialEq, Eq, Structural)]
pub enum Severity {
    Okay,
    Info,
    Warning,
    Critical,
}

/// Model of a [`VerificationResult`].
pub struct ResultView {
    pub message: Seq<char>,
    pub severity: Severity,
}

/// One finding of a check: what was observed, and how serious it is.
#[derive(Debug, Clone, PartialEq, Eq)]
pub struct VerificationResult {
    pub message: String,
    pub severity: Severity,
}

impl View for VerificationResult {
    type V = ResultView;

    open spec fn view(&self) -> ResultView {
        ResultView { message: self.message@, severity: self.severity }
    }
}

impl VerificationResult {
    /// A finding with the given text and grade.
    pub fn new(message: String, severity: Severity) -> (r: VerificationResult)
        ensures
            r@ == (ResultView { message: message@, severity: severity }),
    {
        VerificationResult { message, severity }
    }
}

/// The models of the findings of `results`.
pub open spec fn result_views(results: Seq<VerificationResult>) -> Seq<ResultView> {
    results.map_values(|r: VerificationResult| r@)
}

/// Appends the findings of `more` to `results`, keeping their order.
pub fn extend_results(results: &mut Vec<VerificationResult>, more: Vec<VerificationResult>)
    ensures
        result_views(final(results)@) == result_views(old(results)@) + result_views(more@),
        final(results)@.len() == old(results)@.len() + more@.len(),
{
    let mut more = more;
    let ghost before = results@;
    let ghost added = more@;
    results.append(&mut more);
    assert(result_views(results@) =~= result_views(before) + result_views(added));
}

/// A battery of checks over one snapshot of the cluster's resources.
pub trait Verifier {
    /// The findings that `verify` reports, in order.
    spec fn findings(&self) -> Seq<ResultView>;

    /// Runs every check and reports its findings; there is always at least
    /// one.
    fn verify(&self) -> (results: Vec<VerificationResult>)
        ensures
            result_views(results@) == self.findings(),
            results.len() > 0,
    ;
}

} // verus!
