use crate::config::{Config, ConfigView};
use crate::errors::CliError;
use crate::instance::Instance;
use vstd::prelude::*;

verus! {

/// The provisioning request sent to the control plane for one
/// instance.  The resource shape is fixed; only the name and stack
/// type come from the instance.
#[derive(Debug, PartialEq)]
pub struct DeployRequest {
    pub instance_name: String,
    pub stack_type: String,
    pub cpu: String,
    pub environment: String,
    pub memory: String,
    pub storage: String,
    pub replicas: u32,
}

/// Mathematical image of a `DeployRequest`.
#[verifier::ext_equal]
pub ghost struct DeployRequestView {
    pub instance_name: Seq<char>,
    pub stack_type: Seq<char>,
    pub cpu: Seq<char>,
    pub environment: Seq<char>,
    pub memory: Seq<char>,
    pub storage: Seq<char>,
    pub replicas: u32,
}

impl DeepView for DeployRequest {
    type V = DeployRequestView;

    open spec fn deep_view(&self) -> DeployRequestView {
        DeployRequestView {
            instance_name: self.instance_name.deep_view(),
            stack_type: self.stack_type.deep_view(),
            cpu: self.cpu.deep_view(),
            environment: self.environment.deep_view(),
            memory: self.memory.deep_view(),
            storage: self.storage.deep_view(),
            replicas: self.replicas,
        }
    }
}

/// The configuration holds usable cloud credentials: a non-empty
/// token and a non-empty organization id.
pub open spec fn has_credentials(c: ConfigView) -> bool {
    &&& c.jwt matches Some(j) && j.len() > 0
    &&& c.org_id matches Some(o) && o.len() > 0
}

/// The request a deployment sends for an instance.
pub open spec fn spec_deploy_request(inst_name: Seq<char>, stack_type: Seq<char>) -> DeployRequestView {
    DeployRequestView {
        instance_name: inst_name,
        stack_type: stack_type,
        cpu: "1"@,
        environment: "dev"@,
        memory: "1Gi"@,
        storage: "10Gi"@,
        replicas: 1,
    }
}

/// Builds the provisioning payload for a deployment.
///
/// Credentials are checked first: without a stored token and
/// organization id the call fails with `MissingCredentials` and no
/// payload exists to send, so no request can have gone out.
pub fn deploy_payload(config: &Config, instance: &Instance) -> (r: Result<DeployRequest, CliError>)
    requires
        instance.deep_view().name is Some,
        instance.deep_view().stack_type is Some,
    ensures
        r is Ok <==> has_credentials(config.deep_view()),
        !has_credentials(config.deep_view()) ==> r == Err::<DeployRequest, CliError>(
            CliError::MissingCredentials,
        ),
        r matches Ok(p) ==> p.deep_view() == spec_deploy_request(
            instance.deep_view().name.unwrap(),
            instance.deep_view().stack_type.unwrap(),
        ),
{
    let credentialed = match (&config.jwt, &config.org_id) {
        (Some(j), Some(o)) => !j.as_str().is_empty() && !o.as_str().is_empty(),
        _ => false,
    };
    if !credentialed {
        return Err(CliError::MissingCredentials);
    }
    let name = match &instance.name {
        Some(n) => n.clone(),
        None => String::new(),
    };
    let stack_type = match &instance.stack_type {
        Some(t) => t.clone(),
        None => String::new(),
    };
    let p = DeployRequest {
        instance_name: name,
        stack_type,
        cpu: "1".to_owned(),
        environment: "dev".to_owned(),
        memory: "1Gi".to_owned(),
        storage: "10Gi".to_owned(),
        replicas: 1,
    };
    assert(p.deep_view() =~= spec_deploy_request(
        instance.deep_view().name.unwrap(),
        instance.deep_view().stack_type.unwrap(),
    ));
    Ok(p)
}

/// The control-plane endpoint that provisions instances for an
/// organization.
pub fn deploy_url(org_id: &str) -> (r: String)
    ensures
        r@ == "https://api.tembo.io/api/v1/orgs/"@ + org_id@ + "/instances"@,
{
    let mut out = "https://api.tembo.io/api/v1/orgs/".to_owned();
    out.append(org_id);
    out.append("/instances");
    out
}

/// How the control plane answered a deployment request.
#[derive(Debug, Clone, Copy, PartialEq, Eq)]
pub enum DeployOutcome {
    /// The request was accepted for provisioning.
    Accepted,
    /// The control plane refused the request; carries the status.
    ClientError { status: u16 },
    /// Any other answer.
    Failed { status: u16 },
}

/// Maps an HTTP status to a deployment outcome: 202 is acceptance,
/// the 400s are client errors, everything else is a generic failure.
pub fn classify_deploy_status(status: u16) -> (r: DeployOutcome)
    ensures
        r == DeployOutcome::Accepted <==> status == 202,
        r == (DeployOutcome::ClientError { status }) <==> 400 <= status <= 499,
        r == (DeployOutcome::Failed { status }) <==> (status != 202 && !(400 <= status <= 499)),
{
    if status == 202 {
        DeployOutcome::Accepted
    } else if 400 <= status && status <= 499 {
        DeployOutcome::ClientError { status }
    } else {
        DeployOutcome::Failed { status }
    }
}

} // verus!
