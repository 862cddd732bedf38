use chv::cloud::api_failure_message;
use chv::cloud::api_result;
use chv::cloud::build_auth_header;
use chv::cloud::build_create_service_request;
use chv::cloud::credentials_path;
use chv::cloud::default_org_id;
use chv::cloud::resolve_credentials;
use chv::cloud::ApiError;
use chv::cloud::ApiResponse;
use chv::cloud::CreateServiceOptions;
use chv::cloud::Organization;

fn options(name: &str) -> CreateServiceOptions {
    CreateServiceOptions {
        name: name.to_string(),
        provider: "aws".to_string(),
        region: "us-east-1".to_string(),
        min_replica_memory_gb: Some(8),
        max_replica_memory_gb: Some(16),
        num_replicas: None,
        idle_scaling: Some(true),
        idle_timeout_minutes: None,
        ip_allow: Vec::new(),
        backup_id: None,
        release_channel: Some("fast".to_string()),
        data_warehouse_id: None,
        is_readonly: false,
        encryption_key: None,
        encryption_role: None,
        enable_tde: true,
        byoc_id: None,
        compliance_type: None,
        profile: None,
        org_id: None,
    }
}

#[test]
fn auth_header_is_basic_base64() {
    // The exact rendering of "key:secret" under padded standard base64.
    assert_eq!(build_auth_header("key", "secret"), "Basic a2V5OnNlY3JldA==");
}

#[test]
fn auth_header_pads_output() {
    assert_eq!(build_auth_header("a", "b"), "Basic YTpi");
    assert_eq!(build_auth_header("ab", "c"), "Basic YWI6Yw==");
}

#[test]
fn credentials_prefer_explicit_over_environment() {
    let (k, s) = resolve_credentials(
        Some("flag-key".to_string()),
        Some("env-key".to_string()),
        None,
        Some("env-secret".to_string()),
    )
    .unwrap();
    assert_eq!(k, "flag-key");
    assert_eq!(s, "env-secret");
}

#[test]
fn credentials_missing_key_reported_first() {
    let e = resolve_credentials(None, None, None, None).unwrap_err();
    assert_eq!(
        e.message,
        "API key required. Set CLICKHOUSE_CLOUD_API_KEY or use --api-key"
    );
    let e2 = resolve_credentials(Some("k".to_string()), None, None, None).unwrap_err();
    assert_eq!(
        e2.message,
        "API secret required. Set CLICKHOUSE_CLOUD_API_SECRET or use --api-secret"
    );
}

#[test]
fn default_org_is_the_first_listed() {
    let orgs = vec![
        Organization {
            id: "org-1".to_string(),
            name: "first".to_string(),
            created_at: None,
        },
        Organization {
            id: "org-2".to_string(),
            name: "second".to_string(),
            created_at: None,
        },
    ];
    assert_eq!(default_org_id(&orgs).unwrap(), "org-1");
    let none: Vec<Organization> = Vec::new();
    assert_eq!(
        default_org_id(&none).unwrap_err().message,
        "No organization found for this API key"
    );
}

#[test]
fn api_result_unwraps_the_envelope() {
    let ok: ApiResponse<u32> = ApiResponse {
        result: Some(7),
        error: None,
    };
    assert_eq!(api_result(ok).unwrap(), 7);
    let empty: ApiResponse<u32> = ApiResponse {
        result: None,
        error: Some(ApiError {
            code: None,
            message: "ignored".to_string(),
        }),
    };
    assert_eq!(api_result(empty).unwrap_err().message, "Empty response from API");
}

#[test]
fn api_failure_prefers_the_server_message() {
    let e = api_failure_message("403 Forbidden", "{}", Some("no access".to_string()));
    assert_eq!(e.message, "no access");
    let e2 = api_failure_message("500 Internal Server Error", "boom", None);
    assert_eq!(e2.message, "API error (500 Internal Server Error): boom");
}

#[test]
fn create_request_defaults_to_open_access_list() {
    let r = build_create_service_request(&options("svc"));
    assert_eq!(r.name, "svc");
    assert_eq!(r.provider, "aws");
    assert_eq!(r.region, "us-east-1");
    let list = r.ip_access_list.unwrap();
    assert_eq!(list.len(), 1);
    assert_eq!(list[0].source, "0.0.0.0/0");
    assert_eq!(list[0].description.as_deref(), Some("Allow all (created by chv)"));
    assert_eq!(r.min_replica_memory_gb, Some(8));
    assert_eq!(r.max_replica_memory_gb, Some(16));
    assert_eq!(r.num_replicas, None);
    assert_eq!(r.idle_scaling, Some(true));
    assert_eq!(r.release_channel.as_deref(), Some("fast"));
    assert!(r.tags.is_none());
    // Off flags are left out rather than sent as false.
    assert_eq!(r.is_readonly, None);
    assert_eq!(r.has_transparent_data_encryption, Some(true));
    assert!(r.private_preview_terms_checked.is_none());
}

#[test]
fn create_request_keeps_given_access_list() {
    let mut opts = options("svc");
    opts.ip_allow = vec!["10.0.0.0/8".to_string(), "192.168.1.1/32".to_string()];
    opts.is_readonly = true;
    opts.enable_tde = false;
    let r = build_create_service_request(&opts);
    let list = r.ip_access_list.unwrap();
    assert_eq!(list.len(), 2);
    assert_eq!(list[0].source, "10.0.0.0/8");
    assert!(list[0].description.is_none());
    assert_eq!(list[1].source, "192.168.1.1/32");
    assert_eq!(r.is_readonly, Some(true));
    assert_eq!(r.has_transparent_data_encryption, None);
}

#[test]
fn credentials_path_is_inside_the_local_dir() {
    assert_eq!(
        credentials_path("/home/u/.clickhouse"),
        "/home/u/.clickhouse/credentials.json"
    );
}
