//! The data model of the cloud API layer and the decisions it makes:
//! credential selection, the authorization header, unwrapping API envelopes,
//! and assembling a service-creation request. The HTTP transport around
//! these lives outside the library.

use vstd::prelude::*;
use vstd::string::StrSliceExecFns;
use vstd::string::StringExecFns;
use base64::Engine;

verus! {

/// A failure reported by the cloud API layer, as its message.
#[derive(Debug)]
pub struct CloudError {
    pub message: String,
}

/// The API key pair that authenticates cloud requests.
pub struct Credentials {
    pub api_key: String,
    pub api_secret: String,
}

/// Location of the stored credentials inside the project-local directory.
pub fn credentials_path(local_dir: &str) -> (r: String)
    ensures
        r@ == local_dir@ + "/credentials.json"@,
{
    let mut s = local_dir.to_owned();
    s.append("/credentials.json");
    s
}

/// The envelope every cloud API response arrives in.
pub struct ApiResponse<T> {
    pub result: Option<T>,
    pub error: Option<ApiError>,
}

pub struct ApiError {
    pub code: Option<String>,
    pub message: String,
}

pub struct Organization {
    pub id: String,
    pub name: String,
    pub created_at: Option<String>,
}

pub struct Service {
    pub id: String,
    pub name: String,
    pub provider: String,
    pub region: String,
    pub state: String,
    pub tier: Option<String>,
    pub idle_scaling: Option<bool>,
    pub idle_timeout_minutes: Option<u32>,
    pub ip_access_list: Option<Vec<IpAccessEntry>>,
    pub created_at: Option<String>,
    pub endpoints: Option<Vec<Endpoint>>,
    pub min_replica_memory_gb: Option<u32>,
    pub max_replica_memory_gb: Option<u32>,
    pub num_replicas: Option<u32>,
}

pub struct IpAccessEntry {
    pub source: String,
    pub description: Option<String>,
}

pub struct Endpoint {
    pub protocol: String,
    pub host: String,
    pub port: u16,
}

pub struct Backup {
    pub id: String,
    pub service_id: Option<String>,
    pub status: String,
    pub created_at: Option<String>,
    pub finished_at: Option<String>,
    pub size_in_bytes: Option<u64>,
}

pub struct ResourceTag {
    pub key: String,
    pub value: String,
}

/// The body of a service-creation request.
pub struct CreateServiceRequest {
    pub name: String,
    pub provider: String,
    pub region: String,
    pub ip_access_list: Option<Vec<IpAccessEntry>>,
    pub min_replica_memory_gb: Option<u32>,
    pub max_replica_memory_gb: Option<u32>,
    pub num_replicas: Option<u32>,
    pub idle_scaling: Option<bool>,
    pub idle_timeout_minutes: Option<u32>,
    pub backup_id: Option<String>,
    pub release_channel: Option<String>,
    pub tags: Option<Vec<ResourceTag>>,
    pub data_warehouse_id: Option<String>,
    pub is_readonly: Option<bool>,
    pub encryption_key: Option<String>,
    pub encryption_assumed_role_identifier: Option<String>,
    pub has_transparent_data_encryption: Option<bool>,
    pub byoc_id: Option<String>,
    pub compliance_type: Option<String>,
    pub profile: Option<String>,
    pub private_preview_terms_checked: Option<bool>,
}

pub struct CreateServiceResponse {
    pub service: Service,
    pub password: String,
}

pub struct StateChangeRequest {
    pub command: String,
}

/// What the user asked a new service to be.
pub struct CreateServiceOptions {
    pub name: String,
    pub provider: String,
    pub region: String,
    pub min_replica_memory_gb: Option<u32>,
    pub max_replica_memory_gb: Option<u32>,
    pub num_replicas: Option<u32>,
    pub idle_scaling: Option<bool>,
    pub idle_timeout_minutes: Option<u32>,
    pub ip_allow: Vec<String>,
    pub backup_id: Option<String>,
    pub release_channel: Option<String>,
    pub data_warehouse_id: Option<String>,
    pub is_readonly: bool,
    pub encryption_key: Option<String>,
    pub encryption_role: Option<String>,
    pub enable_tde: bool,
    pub byoc_id: Option<String>,
    pub compliance_type: Option<String>,
    pub profile: Option<String>,
    pub org_id: Option<String>,
}

/// Whether two optional strings read the same.
pub open spec fn opt_str_like(a: Option<String>, b: Option<String>) -> bool {
    match (a, b) {
        (Some(x), Some(y)) => x@ == y@,
        (None, None) => true,
        _ => false,
    }
}

fn clone_opt_str(a: &Option<String>) -> (r: Option<String>)
    ensures
        opt_str_like(r, *a),
{
    match a {
        Some(s) => Some(s.clone()),
        None => None,
    }
}

/// Picks the key and secret that authenticate requests: an explicitly given
/// value wins over the environment's, and each must come from somewhere.
/// A missing key is reported before a missing secret.
pub fn resolve_credentials(
    api_key: Option<String>,
    env_key: Option<String>,
    api_secret: Option<String>,
    env_secret: Option<String>,
) -> (r: Result<(String, String), CloudError>)
    ensures
        match r {
            Ok(p) => {
                &&& api_key is Some || env_key is Some
                &&& api_secret is Some || env_secret is Some
                &&& p.0@ == (if api_key is Some {
                    api_key.unwrap()@
                } else {
                    env_key.unwrap()@
                })
                &&& p.1@ == (if api_secret is Some {
                    api_secret.unwrap()@
                } else {
                    env_secret.unwrap()@
                })
            },
            Err(e) => {
                if api_key is None && env_key is None {
                    e.message@ == "API key required. Set CLICKHOUSE_CLOUD_API_KEY or use --api-key"@
                } else {
                    &&& api_secret is None && env_secret is None
                    &&& e.message@
                        == "API secret required. Set CLICKHOUSE_CLOUD_API_SECRET or use --api-secret"@
                }
            },
        },
{
    let key = match api_key {
        Some(k) => k,
        None => match env_key {
            Some(k) => k,
            None => {
                return Err(
                    CloudError {
                        message:
                            "API key required. Set CLICKHOUSE_CLOUD_API_KEY or use --api-key".to_owned(),
                    },
                );
            },
        },
    };
    let secret = match api_secret {
        Some(s) => s,
        None => match env_secret {
            Some(s) => s,
            None => {
                return Err(
                    CloudError {
                        message:
                            "API secret required. Set CLICKHOUSE_CLOUD_API_SECRET or use --api-secret".to_owned(),
                    },
                );
            },
        },
    };
    Ok((key, secret))
}

/// The padded standard-alphabet base64 rendering of a string's bytes.
pub uninterp spec fn base64_standard(s: Seq<char>) -> Seq<char>;

/// Relies on base64's `Engine::encode` with the `STANDARD` general-purpose
/// engine: a padded encoding of the string's bytes, a function of the
/// string alone. The length bound keeps the engine's output-size
/// computation from overflowing, on which it would not return.
#[verifier::external_body]
fn base64_encode_str(s: &str) -> (r: String)
    requires
        s@.len() < 0x1000000000000000,
    ensures
        r@ == base64_standard(s@),
{
    base64::engine::general_purpose::STANDARD.encode(s)
}

/// The `Authorization` header value for the given key pair: the scheme,
/// then the base64 rendering of `key:secret`.
pub fn build_auth_header(api_key: &str, api_secret: &str) -> (r: String)
    requires
        api_key@.len() + api_secret@.len() + 1 < 0x1000000000000000,
    ensures
        r@ == "Basic "@ + base64_standard(api_key@ + ":"@ + api_secret@),
{
    let mut creds = api_key.to_owned();
    creds.append(":");
    creds.append(api_secret);
    proof {
        reveal_strlit(":");
    }
    let encoded = base64_encode_str(creds.as_str());
    let mut header = "Basic ".to_owned();
    header.append(encoded.as_str());
    header
}

/// The organization that stands in when none is named: the first one the
/// API lists for the key.
pub fn default_org_id(orgs: &Vec<Organization>) -> (r: Result<String, CloudError>)
    ensures
        match r {
            Ok(s) => orgs@.len() > 0 && s@ == orgs@[0].id@,
            Err(e) => orgs@.len() == 0 && e.message@ == "No organization found for this API key"@,
        },
{
    if orgs.len() > 0 {
        Ok(orgs[0].id.clone())
    } else {
        Err(CloudError { message: "No organization found for this API key".to_owned() })
    }
}

/// Unwraps an API envelope: the payload if one came, and a failure when the
/// envelope was empty.
pub fn api_result<T>(r: ApiResponse<T>) -> (out: Result<T, CloudError>)
    ensures
        match r.result {
            Some(v) => out matches Ok(w) && w == v,
            None => out matches Err(e) && e.message@ == "Empty response from API"@,
        },
{
    match r.result {
        Some(v) => Ok(v),
        None => Err(CloudError { message: "Empty response from API".to_owned() }),
    }
}

/// The failure a non-success API response amounts to: the message the
/// server's error envelope carried if it could be read, and otherwise the
/// status and raw body.
pub fn api_failure_message(status_text: &str, body: &str, parsed_error: Option<String>) -> (r:
    CloudError)
    ensures
        match parsed_error {
            Some(m) => r.message@ == m@,
            None => r.message@ == "API error ("@ + status_text@ + "): "@ + body@,
        },
{
    match parsed_error {
        Some(m) => CloudError { message: m },
        None => {
            let mut s = "API error (".to_owned();
            s.append(status_text);
            s.append("): ");
            s.append(body);
            CloudError { message: s }
        },
    }
}

/// What the request's access list must be, given the user's choices: an
/// open one when nothing was specified, and otherwise one entry per given
/// source, without descriptions.
pub open spec fn ip_list_matches(entries: Seq<IpAccessEntry>, allow: Seq<String>) -> bool {
    if allow.len() == 0 {
        &&& entries.len() == 1
        &&& entries[0].source@ == "0.0.0.0/0"@
        &&& match entries[0].description {
            Some(d) => d@ == "Allow all (created by chv)"@,
            None => false,
        }
    } else {
        &&& entries.len() == allow.len()
        &&& forall|i: int|
            0 <= i < allow.len() ==> (#[trigger] entries[i]).source@ == allow[i]@ && entries[i].description is None
    }
}

/// Assembles the service-creation request from the user's choices. Every
/// field comes from the matching option; the access list defaults to
/// allow-all when none was given; flags that are off are left out of the
/// request rather than sent as false; tags and the preview acknowledgement
/// are never sent.
pub fn build_create_service_request(opts: &CreateServiceOptions) -> (r: CreateServiceRequest)
    ensures
        r.name@ == opts.name@,
        r.provider@ == opts.provider@,
        r.region@ == opts.region@,
        r.ip_access_list matches Some(entries) && ip_list_matches(entries@, opts.ip_allow@),
        r.min_replica_memory_gb == opts.min_replica_memory_gb,
        r.max_replica_memory_gb == opts.max_replica_memory_gb,
        r.num_replicas == opts.num_replicas,
        r.idle_scaling == opts.idle_scaling,
        r.idle_timeout_minutes == opts.idle_timeout_minutes,
        opt_str_like(r.backup_id, opts.backup_id),
        opt_str_like(r.release_channel, opts.release_channel),
        r.tags is None,
        opt_str_like(r.data_warehouse_id, opts.data_warehouse_id),
        r.is_readonly == (if opts.is_readonly {
            Some(true)
        } else {
            None::<bool>
        }),
        opt_str_like(r.encryption_key, opts.encryption_key),
        opt_str_like(r.encryption_assumed_role_identifier, opts.encryption_role),
        r.has_transparent_data_encryption == (if opts.enable_tde {
            Some(true)
        } else {
            None::<bool>
        }),
        opt_str_like(r.byoc_id, opts.byoc_id),
        opt_str_like(r.compliance_type, opts.compliance_type),
        opt_str_like(r.profile, opts.profile),
        r.private_preview_terms_checked is None,
{
    let ip_access_list = if opts.ip_allow.len() == 0 {
        let mut entries: Vec<IpAccessEntry> = Vec::new();
        entries.push(
            IpAccessEntry {
                source: "0.0.0.0/0".to_owned(),
                description: Some("Allow all (created by chv)".to_owned()),
            },
        );
        entries
    } else {
        let mut entries: Vec<IpAccessEntry> = Vec::new();
        let mut i: usize = 0;
        while i < opts.ip_allow.len()
            invariant
                i <= opts.ip_allow@.len(),
                entries@.len() == i,
                forall|k: int|
                    0 <= k < i ==> (#[trigger] entries@[k]).source@ == opts.ip_allow@[k]@
                        && entries@[k].description is None,
            decreases opts.ip_allow@.len() - i,
        {
            entries.push(IpAccessEntry { source: opts.ip_allow[i].clone(), description: None });
            i = i + 1;
        }
        entries
    };
    CreateServiceRequest {
        name: opts.name.clone(),
        provider: opts.provider.clone(),
        region: opts.region.clone(),
        ip_access_list: Some(ip_access_list),
        min_replica_memory_gb: opts.min_replica_memory_gb,
        max_replica_memory_gb: opts.max_replica_memory_gb,
        num_replicas: opts.num_replicas,
        idle_scaling: opts.idle_scaling,
        idle_timeout_minutes: opts.idle_timeout_minutes,
        backup_id: clone_opt_str(&opts.backup_id),
        release_channel: clone_opt_str(&opts.release_channel),
        tags: None,
        data_warehouse_id: clone_opt_str(&opts.data_warehouse_id),
        is_readonly: if opts.is_readonly {
            Some(true)
        } else {
            None
        },
        encryption_key: clone_opt_str(&opts.encryption_key),
        encryption_assumed_role_identifier: clone_opt_str(&opts.encryption_role),
        has_transparent_data_encryption: if opts.enable_tde {
            Some(true)
        } else {
            None
        },
        byoc_id: clone_opt_str(&opts.byoc_id),
        compliance_type: clone_opt_str(&opts.compliance_type),
        profile: clone_opt_str(&opts.profile),
        private_preview_terms_checked: None,
    }
}

} // verus!
