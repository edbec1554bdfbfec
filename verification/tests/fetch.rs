use celld::fetch::fetch_loopback::{
    classify_parsed, config_from_vars, default_denied_ports, denied_ports_from_env,
    is_metadata_host, is_restricted_endpoint, is_restricted_ip, loopback_flag_enabled,
    normalize_host, plan_fetch, plan_to_json, platform_listener_reject, FetchPlan, IpLiteral,
    LoopbackConfig,
};

fn cfg() -> LoopbackConfig {
    LoopbackConfig {
        canonical_inbound_url: "http://support-flaremo.lvh.me:8787/".into(),
        synthetic_host: "support-flaremo.lvh.me".into(),
        scheme: "http".into(),
        port: 8787,
        denied_ports: default_denied_ports(),
        loopback_enabled: true,
    }
}

const BASE: &str = "http://support-flaremo.lvh.me:8787/";
const LISTENER: &str = "fetch: disallowed request to a local platform listener";

fn any_authority(_authority: &String) -> bool {
    true
}

fn no_authority(_authority: &String) -> bool {
    false
}

fn public_base(value: &str) -> Vec<(String, String)> {
    vec![("PUBLIC_BASE_URL".to_string(), value.to_string())]
}

#[test]
fn canonical_absolute_loopback() {
    let plan = plan_fetch("http://support-flaremo.lvh.me:8787/api", BASE, Some(&cfg()));
    assert_eq!(
        plan,
        FetchPlan::Loopback {
            url: "http://support-flaremo.lvh.me:8787/api".into(),
            host: "support-flaremo.lvh.me".into(),
        }
    );
}

#[test]
fn relative_path_uses_canonical_base() {
    let plan = plan_fetch("/api", BASE, Some(&cfg()));
    assert!(matches!(plan, FetchPlan::Loopback { .. }));
}

#[test]
fn gateway_loopback_host_wrong_host_rejects() {
    let plan = plan_fetch("http://127.0.0.1:8787/", BASE, Some(&cfg()));
    assert!(matches!(plan, FetchPlan::Reject(_)));
}

#[test]
fn external_egress() {
    let plan = plan_fetch("https://example.com/", BASE, Some(&cfg()));
    assert_eq!(plan, FetchPlan::Egress);
}

#[test]
fn other_project_host_on_gateway_port_rejects() {
    let plan = plan_fetch("http://other-project.lvh.me:8787/", BASE, Some(&cfg()));
    assert!(matches!(plan, FetchPlan::Reject(_)));
}

#[test]
fn celld_operator_port_rejects() {
    let plan = plan_fetch("http://support-flaremo.lvh.me:8792/api", BASE, Some(&cfg()));
    assert!(matches!(plan, FetchPlan::Reject(_)));
}

#[test]
fn ipv6_loopback_gateway_port_rejects() {
    let plan = plan_fetch("http://[::1]:8787/", BASE, Some(&cfg()));
    assert!(matches!(plan, FetchPlan::Reject(_)));
}

#[test]
fn rfc1918_on_gateway_port_rejects() {
    let plan = plan_fetch("http://10.0.0.1:8787/", BASE, Some(&cfg()));
    assert!(matches!(plan, FetchPlan::Reject(_)));
}

#[test]
fn metadata_host_rejects() {
    let plan = plan_fetch(
        "http://metadata.google.internal/computeMetadata/v1/",
        BASE,
        Some(&cfg()),
    );
    assert!(matches!(plan, FetchPlan::Reject(_)));
}

#[test]
fn gateway_port_without_config_rejects_hostname() {
    let plan = plan_fetch("http://victim.example:8787/", "", None);
    assert!(matches!(plan, FetchPlan::Reject(_)));
}

#[test]
fn loopback_disabled_same_origin_rejects_not_egress() {
    let mut disabled = cfg();
    disabled.loopback_enabled = false;
    let plan = plan_fetch("http://support-flaremo.lvh.me:8787/api", BASE, Some(&disabled));
    assert!(matches!(
        plan,
        FetchPlan::Reject(message) if message.contains("in-process loopback")
    ));
}

#[test]
fn same_origin_host_case_insensitive_loopback() {
    let plan = plan_fetch("http://SUPPORT-FLAREMO.lvh.me:8787/ping", BASE, Some(&cfg()));
    assert!(matches!(plan, FetchPlan::Loopback { .. }));
}

#[test]
fn plan_to_json_loopback_for_harness() {
    let plan = FetchPlan::Loopback {
        url: "http://support-flaremo.lvh.me:8787/api".into(),
        host: "support-flaremo.lvh.me".into(),
    };
    let json: serde_json::Value = serde_json::from_str(&plan_to_json(&plan)).unwrap();
    assert_eq!(json["action"], "loopback");
    assert_eq!(json["url"], "http://support-flaremo.lvh.me:8787/api");
    assert_eq!(json["host"], "support-flaremo.lvh.me");
}

#[test]
fn config_from_vars_reads_public_base_url() {
    let vars: Vec<(String, String)> = vec![
        ("PUBLIC_BASE_URL".into(), "http://app.example:8787".into()),
        ("OTHER".into(), "x".into()),
    ];
    let config = config_from_vars(&vars, None, None, any_authority).expect("PUBLIC_BASE_URL");
    assert_eq!(config.synthetic_host, "app.example");
    assert_eq!(config.port, 8787);
    assert_eq!(config.canonical_inbound_url, "http://app.example:8787/");
    assert_eq!(config.denied_ports, default_denied_ports());
    assert!(config.loopback_enabled);
}

#[test]
fn a_config_needs_a_base_a_host_and_a_good_authority() {
    assert!(config_from_vars(&[], None, None, any_authority).is_none());
    assert!(config_from_vars(&public_base(""), None, None, any_authority).is_none());
    assert!(config_from_vars(&public_base("no url"), None, None, any_authority).is_none());
    assert!(config_from_vars(&public_base("data:text/plain,x"), None, None, any_authority).is_none());
    assert!(config_from_vars(&public_base("http://app.example"), None, None, no_authority).is_none());
    // The first of two counts.
    let mut twice = public_base("http://one.example");
    twice.extend(public_base("http://two.example"));
    let config = config_from_vars(&twice, Some("1,2"), Some(false), any_authority).unwrap();
    assert_eq!(config.synthetic_host, "one.example");
    assert_eq!(config.port, 80);
    assert_eq!(config.denied_ports, vec![1, 2]);
    assert!(!config.loopback_enabled);
    let secure = config_from_vars(&public_base("https://app.example/x"), None, None, any_authority);
    assert_eq!(secure.unwrap().canonical_inbound_url, "https://app.example:443/");
}

#[test]
fn the_authority_carries_a_port_only_where_the_url_does() {
    let seen = |authority: &String| authority == "app.example:8787";
    assert!(config_from_vars(&public_base("http://app.example:8787"), None, None, seen).is_some());
    let bare = |authority: &String| authority == "app.example";
    assert!(config_from_vars(&public_base("http://app.example:80"), None, None, bare).is_some());
}

#[test]
fn denied_ports_are_read_from_a_list() {
    assert_eq!(denied_ports_from_env(None), default_denied_ports());
    assert_eq!(denied_ports_from_env(Some("")), default_denied_ports());
    assert_eq!(denied_ports_from_env(Some("x, y")), default_denied_ports());
    assert_eq!(denied_ports_from_env(Some(" 80 ,65535,65536,-1,+7,x,80")), vec![80, 65535, 7, 80]);
    assert_eq!(
        default_denied_ports(),
        vec![8787, 8790, 8791, 8792, 8793, 8794, 8795, 8796, 8797, 8798, 8799]
    );
}

#[test]
fn loopback_is_on_unless_switched_off() {
    assert!(loopback_flag_enabled(None));
    assert!(loopback_flag_enabled(Some(true)));
    assert!(!loopback_flag_enabled(Some(false)));
}

#[test]
fn hosts_are_compared_without_case_and_final_dots() {
    assert_eq!(normalize_host("App.Example.."), Some("app.example".to_string()));
    assert_eq!(normalize_host(""), None);
    assert_eq!(normalize_host("..."), None);
    let plan = plan_fetch("http://support-flaremo.lvh.me.:8787/x", BASE, Some(&cfg()));
    assert_eq!(
        plan,
        FetchPlan::Loopback {
            url: "http://support-flaremo.lvh.me:8787/x".into(),
            host: "support-flaremo.lvh.me".into(),
        }
    );
}

#[test]
fn every_refusal_has_its_words() {
    let config = cfg();
    let reject = |text: &str| FetchPlan::Reject(text.to_string());
    assert_eq!(plan_fetch("http://x/", "::", None), reject("fetch: invalid inbound base URL"));
    assert_eq!(plan_fetch("http://[", BASE, Some(&config)), reject("fetch: invalid URL"));
    assert_eq!(plan_fetch("ftp://x/", BASE, Some(&config)), reject("fetch: unsupported URL scheme"));
    assert_eq!(plan_fetch("http://10.0.0.1:8790/", BASE, Some(&config)), reject(LISTENER));
    assert_eq!(plan_fetch("/x", "", None), reject("fetch: invalid URL"));
    assert_eq!(plan_fetch("ws://x.example/", "", None), reject("fetch: unsupported URL scheme"));
    assert_eq!(plan_fetch("wss://x.example:8787/", BASE, Some(&config)), FetchPlan::Egress);
    assert_eq!(classify_parsed(&None), reject("fetch: invalid URL"));
}

#[test]
fn the_inbound_base_goes_before_the_canonical_one() {
    let config = cfg();
    // Blank counts as none, so the canonical base is used.
    assert!(matches!(plan_fetch("/x", "  ", Some(&config)), FetchPlan::Loopback { .. }));
    assert_eq!(plan_fetch("/x", "https://example.com/", Some(&config)), FetchPlan::Egress);
    // Another scheme or port is another origin.
    assert_eq!(
        plan_fetch("https://support-flaremo.lvh.me:8787/", BASE, Some(&config)),
        FetchPlan::Reject(LISTENER.to_string())
    );
    assert_eq!(
        plan_fetch("http://support-flaremo.lvh.me/", BASE, Some(&config)),
        FetchPlan::Egress
    );
}

#[test]
fn metadata_hosts_are_refused_on_any_port() {
    assert!(is_metadata_host("Instance.METADATA.google.internal"));
    assert!(!is_metadata_host("xmetadata.google.internal"));
    assert!(!is_metadata_host("example.com"));
    assert!(platform_listener_reject("metadata.google.internal", 80, &vec![]).is_some());
    assert!(platform_listener_reject("example.com", 80, &vec![81]).is_none());
    assert!(platform_listener_reject("example.com", 81, &vec![81]).is_some());
}

#[test]
fn local_addresses_are_restricted_on_denied_ports() {
    let v4 = |a: u8, b: u8, c: u8, d: u8| IpLiteral::V4 { a, b, c, d };
    assert!(is_restricted_ip(v4(127, 0, 0, 1)));
    assert!(is_restricted_ip(v4(10, 1, 2, 3)));
    assert!(is_restricted_ip(v4(172, 16, 0, 1)));
    assert!(is_restricted_ip(v4(172, 31, 255, 255)));
    assert!(!is_restricted_ip(v4(172, 32, 0, 1)));
    assert!(is_restricted_ip(v4(192, 168, 0, 1)));
    assert!(is_restricted_ip(v4(169, 254, 0, 1)));
    assert!(!is_restricted_ip(v4(8, 8, 8, 8)));
    let v6 = |first: u16, middle_zero: bool, last: u16| IpLiteral::V6 { first, middle_zero, last };
    assert!(is_restricted_ip(v6(0, true, 1)));
    assert!(is_restricted_ip(v6(0, true, 0)));
    assert!(!is_restricted_ip(v6(0, true, 2)));
    assert!(is_restricted_ip(v6(0xfc00, false, 9)));
    assert!(is_restricted_ip(v6(0xfdff, false, 9)));
    assert!(is_restricted_ip(v6(0xfe80, false, 9)));
    assert!(!is_restricted_ip(v6(0x2001, false, 1)));
    let ports = vec![8787];
    assert!(is_restricted_endpoint("127.0.0.1", 8787, &ports, Some(v4(127, 0, 0, 1))));
    assert!(!is_restricted_endpoint("127.0.0.1", 80, &ports, Some(v4(127, 0, 0, 1))));
    assert!(!is_restricted_endpoint("example.com", 8787, &ports, None));
}

#[test]
fn every_plan_is_written_as_json() {
    assert_eq!(plan_to_json(&FetchPlan::Egress), r#"{"action":"egress"}"#);
    let reject = plan_to_json(&FetchPlan::Reject("no \"way\"".into()));
    let json: serde_json::Value = serde_json::from_str(&reject).unwrap();
    assert_eq!(json["action"], "reject");
    assert_eq!(json["error"], "no \"way\"");
}
