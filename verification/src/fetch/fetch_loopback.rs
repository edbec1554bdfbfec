//! Where an outbound `fetch` goes: back into this process, out, or nowhere.

use vstd::prelude::*;
use crate::fetch::url_parts;
use crate::fetch::url_parts::{UrlModel, UrlParts};
use crate::json;
use crate::text;

verus! {

/// The loopback settings of one worker generation.
#[derive(Clone, Debug)]
pub struct LoopbackConfig {
    /// The canonical origin, `scheme://host:port/`, which relative URLs are
    /// resolved against.
    pub canonical_inbound_url: String,
    pub synthetic_host: String,
    pub scheme: String,
    pub port: u16,
    /// Ports of the platform that no request may reach.
    pub denied_ports: Vec<u16>,
    pub loopback_enabled: bool,
}

/// Where a request goes.
#[derive(Clone, Debug, PartialEq, Eq)]
pub enum FetchPlan {
    Loopback { url: String, host: String },
    Egress,
    Reject(String),
}

/// What a plan stands for.
pub enum PlanModel {
    Loopback { url: Seq<char>, host: Seq<char> },
    Egress,
    Reject(Seq<char>),
}

impl FetchPlan {
    pub open spec fn view(&self) -> PlanModel {
        match self {
            FetchPlan::Loopback { url, host } => PlanModel::Loopback { url: url@, host: host@ },
            FetchPlan::Egress => PlanModel::Egress,
            FetchPlan::Reject(message) => PlanModel::Reject(message@),
        }
    }
}

/// The ports that are denied where nothing else is said.
pub open spec fn default_ports() -> Seq<u16> {
    seq![8787, 8790, 8791, 8792, 8793, 8794, 8795, 8796, 8797, 8798, 8799]
}

/// The ports that are denied where nothing else is said.
pub fn default_denied_ports() -> (ports: Vec<u16>)
    ensures
        ports@ == default_ports(),
{
    let ports: Vec<u16> = vec![8787, 8790, 8791, 8792, 8793, 8794, 8795, 8796, 8797, 8798, 8799];
    assert(ports@ =~= default_ports());
    ports
}

/// The ports that a list of segments names; one that is no port is passed over.
pub open spec fn listed_ports(parts: Seq<Seq<char>>) -> Seq<u16>
    decreases parts.len(),
{
    if parts.len() == 0 {
        Seq::empty()
    } else {
        let rest = listed_ports(parts.drop_last());
        match text::parsed_dec(text::trimmed(parts.last()), 65535) {
            Some(port) => rest.push(port as u16),
            None => rest,
        }
    }
}

/// The denied ports, from a list with commas. Without a list, or with one that
/// names no port, they are the default ones.
pub fn denied_ports_from_env(raw: Option<&str>) -> (ports: Vec<u16>)
    ensures
        ports@ == match raw {
            Some(raw) => if listed_ports(text::segments(raw@, ',')).len() > 0 {
                listed_ports(text::segments(raw@, ','))
            } else {
                default_ports()
            },
            None => default_ports(),
        },
{
    let raw = match raw {
        Some(raw) => raw,
        None => return default_denied_ports(),
    };
    let parts = text::split(raw, ',');
    let ghost all = text::segments(raw@, ',');
    let mut ports: Vec<u16> = Vec::new();
    let mut at: usize = 0;
    assert(all.take(0) =~= Seq::<Seq<char>>::empty());
    while at < parts.len()
        invariant
            at <= parts@.len(),
            text::views(parts@) == all,
            ports@ == listed_ports(all.take(at as int)),
        decreases parts@.len() - at,
    {
        assert(all.take(at + 1).drop_last() =~= all.take(at as int));
        assert(all.take(at + 1).last() == parts@[at as int]@);
        let part = text::trim(parts[at].as_str());
        if let Some(port) = text::parse_dec(part.as_str(), 65535) {
            ports.push(port as u16);
        }
        at = at + 1;
    }
    assert(all.take(at as int) =~= all);
    if ports.len() > 0 {
        ports
    } else {
        default_denied_ports()
    }
}

/// Is the loopback on? It is, unless it was switched off.
pub fn loopback_flag_enabled(setting: Option<bool>) -> (enabled: bool)
    ensures
        enabled == match setting {
            Some(setting) => setting,
            None => true,
        },
{
    match setting {
        Some(setting) => setting,
        None => true,
    }
}

/// `http` and `https`, in lower case; any other scheme as it is.
pub open spec fn canonical(scheme: Seq<char>) -> Seq<char> {
    if text::lower(scheme) == "http"@ || text::lower(scheme) == "https"@ {
        text::lower(scheme)
    } else {
        scheme
    }
}

fn canonical_scheme(scheme: &str) -> (out: String)
    ensures
        out@ == canonical(scheme@),
{
    let lowered = text::to_lower(scheme);
    if text::same(lowered.as_str(), "http") || text::same(lowered.as_str(), "https") {
        lowered
    } else {
        scheme.to_owned()
    }
}

/// The port of a URL whose scheme is `scheme`.
pub open spec fn port_of(url: UrlModel, scheme: Seq<char>) -> u16 {
    match url.known_port {
        Some(port) => port,
        None => if scheme == "https"@ {
            443
        } else {
            80
        },
    }
}

fn url_port(url: &UrlParts, scheme: &str) -> (port: u16)
    ensures
        port == port_of(url@, scheme@),
{
    match url.known_port {
        Some(port) => port,
        None => if text::same(scheme, "https") {
            443
        } else {
            80
        },
    }
}

/// `text` without the dots at its end.
pub open spec fn without_dots(text: Seq<char>) -> Seq<char>
    decreases text.len(),
{
    if text.len() > 0 && text.last() == '.' {
        without_dots(text.drop_last())
    } else {
        text
    }
}

/// A host in lower case, without the dots at its end; none where nothing is
/// left.
pub open spec fn normal_host(host: Seq<char>) -> Option<Seq<char>> {
    if without_dots(host).len() == 0 {
        None
    } else {
        Some(text::lower(without_dots(host)))
    }
}

/// A host in lower case, without the dots at its end.
pub fn normalize_host(host: &str) -> (normal: Option<String>)
    ensures
        normal is Some <==> normal_host(host@) is Some,
        normal matches Some(normal) ==> normal_host(host@) == Some(normal@),
{
    let chars = text::chars_of(host);
    let mut end: usize = chars.len();
    assert(chars@.take(end as int) =~= chars@);
    while end > 0 && chars[end - 1] == '.'
        invariant
            end <= chars@.len(),
            without_dots(host@) == without_dots(chars@.take(end as int)),
        decreases end,
    {
        assert(chars@.take(end as int).drop_last() =~= chars@.take(end - 1));
        end = end - 1;
    }
    assert(end > 0 ==> chars@.take(end as int).last() == chars@[end - 1]);
    if end == 0 {
        return None;
    }
    let kept = text::slice_text(&chars, 0, end);
    assert(kept@ =~= chars@.take(end as int));
    Some(text::to_lower(kept.as_str()))
}

/// Is a URL of the canonical origin?
pub open spec fn same_origin(url: UrlModel, config: LoopbackConfig) -> bool {
    let scheme = canonical(url.scheme);
    &&& scheme == config.scheme@
    &&& url.host is Some
    &&& normal_host(url.host->0) is Some
    &&& normal_host(url.host->0) == normal_host(config.synthetic_host@)
    &&& port_of(url, scheme) == config.port
}

/// Is a URL of the canonical origin?
pub fn origins_match(url: &UrlParts, config: &LoopbackConfig) -> (matching: bool)
    ensures
        matching == same_origin(url@, *config),
{
    let scheme = canonical_scheme(url.scheme.as_str());
    if !text::same(scheme.as_str(), config.scheme.as_str()) {
        return false;
    }
    let host = match &url.host {
        Some(host) => match normalize_host(host.as_str()) {
            Some(host) => host,
            None => return false,
        },
        None => return false,
    };
    let config_host = match normalize_host(config.synthetic_host.as_str()) {
        Some(host) => host,
        None => return false,
    };
    if !text::same(host.as_str(), config_host.as_str()) {
        return false;
    }
    url_port(url, scheme.as_str()) == config.port
}

/// Is this the host of an instance's metadata?
pub open spec fn metadata_host(host: Seq<char>) -> bool {
    text::lower(host) == "metadata.google.internal"@ || text::has_suffix(
        text::lower(host),
        ".metadata.google.internal"@,
    )
}

/// Is this the host of an instance's metadata?
pub fn is_metadata_host(host: &str) -> (found: bool)
    ensures
        found == metadata_host(host@),
{
    let host = text::to_lower(host);
    text::same(host.as_str(), "metadata.google.internal") || text::ends_with(
        host.as_str(),
        ".metadata.google.internal",
    )
}

fn holds_port(ports: &Vec<u16>, port: u16) -> (found: bool)
    ensures
        found == ports@.contains(port),
{
    let mut at: usize = 0;
    while at < ports.len()
        invariant
            at <= ports@.len(),
            forall|i: int| 0 <= i < at ==> ports@[i] != port,
        decreases ports@.len() - at,
    {
        if ports[at] == port {
            return true;
        }
        at = at + 1;
    }
    false
}

/// An address that a host spells out.
#[derive(Clone, Copy, Debug, PartialEq, Eq)]
pub enum IpLiteral {
    V4 { a: u8, b: u8, c: u8, d: u8 },
    /// The first of eight groups, whether the six groups after it are all
    /// zero, and the last.
    V6 { first: u16, middle_zero: bool, last: u16 },
}

/// Is an address local: loopback, private, link-local, or none at all?
pub open spec fn local_ip(ip: IpLiteral) -> bool {
    match ip {
        IpLiteral::V4 { a, b, c, d } => a == 127 || a == 10 || a == 172 && 16 <= b <= 31 || a == 192
            && b == 168 || a == 169 && b == 254,
        IpLiteral::V6 { first, middle_zero, last } => {
            ||| first == 0 && middle_zero && last <= 1
            ||| 0xfc00 <= first <= 0xfdff
            ||| 0xfe80 <= first <= 0xfebf
        },
    }
}

/// Is an address local: loopback, private, link-local, or none at all?
pub fn is_restricted_ip(ip: IpLiteral) -> (local: bool)
    ensures
        local == local_ip(ip),
{
    match ip {
        IpLiteral::V4 { a, b, c: _, d: _ } => a == 127 || a == 10 || (a == 172 && 16 <= b && b <= 31)
            || (a == 192 && b == 168) || (a == 169 && b == 254),
        IpLiteral::V6 { first, middle_zero, last } => (first == 0 && middle_zero && last <= 1) || (
        0xfc00 <= first && first <= 0xfdff) || (0xfe80 <= first && first <= 0xfebf),
    }
}

/// Is a denied port asked for on a local host? `ip` is the address that the
/// host spells out, if it does.
pub open spec fn restricted_endpoint(
    host: Seq<char>,
    port: u16,
    denied_ports: Seq<u16>,
    ip: Option<IpLiteral>,
) -> bool {
    denied_ports.contains(port) && (metadata_host(host) || host == "localhost"@ || text::has_suffix(
        host,
        ".localhost"@,
    ) || match ip {
        Some(ip) => local_ip(ip),
        None => false,
    })
}

/// Is a denied port asked for on a local host?
pub fn is_restricted_endpoint(
    host: &str,
    port: u16,
    denied_ports: &Vec<u16>,
    ip: Option<IpLiteral>,
) -> (restricted: bool)
    ensures
        restricted == restricted_endpoint(host@, port, denied_ports@, ip),
{
    if !holds_port(denied_ports, port) {
        return false;
    }
    if is_metadata_host(host) || text::same(host, "localhost") || text::ends_with(
        host,
        ".localhost",
    ) {
        return true;
    }
    match ip {
        Some(ip) => is_restricted_ip(ip),
        None => false,
    }
}

/// Must a request be refused? No host may be reached on a denied port, and the
/// metadata host on none.
pub open spec fn platform_listener(host: Seq<char>, port: u16, denied_ports: Seq<u16>) -> bool {
    denied_ports.contains(port) || metadata_host(host)
}

/// The message for a request that must be refused.
pub open spec fn listener_message() -> Seq<char> {
    "fetch: disallowed request to a local platform listener"@
}

/// Refuse a request to the platform itself.
pub fn platform_listener_reject(host: &str, port: u16, denied_ports: &Vec<u16>) -> (plan: Option<
    FetchPlan,
>)
    ensures
        plan is Some <==> platform_listener(host@, port, denied_ports@),
        plan matches Some(plan) ==> plan@ == PlanModel::Reject(listener_message()),
{
    if holds_port(denied_ports, port) || is_metadata_host(host) {
        return Some(
            FetchPlan::Reject("fetch: disallowed request to a local platform listener".to_owned()),
        );
    }
    None
}

/// No local host is reached on a denied port, whatever its address.
pub proof fn law_restricted_endpoint_is_refused(
    host: Seq<char>,
    port: u16,
    denied_ports: Seq<u16>,
    ip: Option<IpLiteral>,
)
    requires
        restricted_endpoint(host, port, denied_ports, ip),
    ensures
        platform_listener(host, port, denied_ports),
{
}

/// The host of a URL, empty where it has none.
pub open spec fn host_of(url: UrlModel) -> Seq<char> {
    match url.host {
        Some(host) => host,
        None => Seq::empty(),
    }
}

/// Is this one of the schemes of HTTP?
pub open spec fn is_http(scheme: Seq<char>) -> bool {
    scheme == "http"@ || scheme == "https"@
}

/// Where a request to a URL goes that a loopback would write as `loopback`.
pub open spec fn planned(url: UrlModel, config: Option<LoopbackConfig>, loopback: Seq<char>) -> PlanModel {
    if url.scheme == "ws"@ || url.scheme == "wss"@ {
        PlanModel::Egress
    } else if !is_http(url.scheme) {
        PlanModel::Reject("fetch: unsupported URL scheme"@)
    } else {
        match config {
            Some(config) => if same_origin(url, config) {
                if config.loopback_enabled {
                    PlanModel::Loopback { url: loopback, host: config.synthetic_host@ }
                } else {
                    PlanModel::Reject("fetch: same-origin fetch must use in-process loopback"@)
                }
            } else if platform_listener(
                host_of(url),
                port_of(url, url.scheme),
                config.denied_ports@,
            ) {
                PlanModel::Reject(listener_message())
            } else {
                PlanModel::Egress
            },
            None => without_config(url),
        }
    }
}

/// Where a request over HTTP goes without any settings.
pub open spec fn without_config(url: UrlModel) -> PlanModel {
    if platform_listener(host_of(url), port_of(url, url.scheme), default_ports()) {
        PlanModel::Reject(listener_message())
    } else {
        PlanModel::Egress
    }
}

/// Where a request to a resolved URL goes. `loopback` is the URL with the host
/// of the canonical origin.
pub fn plan_resolved(url: &UrlParts, config: Option<&LoopbackConfig>, loopback: String) -> (plan:
    FetchPlan)
    ensures
        plan@ == planned(
            url@,
            match config {
                Some(config) => Some(*config),
                None => None,
            },
            loopback@,
        ),
{
    if text::same(url.scheme.as_str(), "ws") || text::same(url.scheme.as_str(), "wss") {
        return FetchPlan::Egress;
    }
    if !text::same(url.scheme.as_str(), "http") && !text::same(url.scheme.as_str(), "https") {
        return FetchPlan::Reject("fetch: unsupported URL scheme".to_owned());
    }
    match config {
        Some(config) => {
            if origins_match(url, config) {
                if config.loopback_enabled {
                    return FetchPlan::Loopback {
                        url: loopback,
                        host: config.synthetic_host.as_str().to_owned(),
                    };
                }
                return FetchPlan::Reject(
                    "fetch: same-origin fetch must use in-process loopback".to_owned(),
                );
            }
            let host = host_text(url);
            let port = url_port(url, url.scheme.as_str());
            match platform_listener_reject(host.as_str(), port, &config.denied_ports) {
                Some(plan) => plan,
                None => FetchPlan::Egress,
            }
        },
        None => plan_without_config(url),
    }
}

fn host_text(url: &UrlParts) -> (host: String)
    ensures
        host@ == host_of(url@),
{
    match &url.host {
        Some(host) => host.as_str().to_owned(),
        None => {
            let empty = String::new();
            assert(empty@ =~= Seq::<char>::empty());
            empty
        },
    }
}

fn plan_without_config(url: &UrlParts) -> (plan: FetchPlan)
    ensures
        plan@ == without_config(url@),
{
    let host = host_text(url);
    let port = url_port(url, url.scheme.as_str());
    let denied = default_denied_ports();
    match platform_listener_reject(host.as_str(), port, &denied) {
        Some(plan) => plan,
        None => FetchPlan::Egress,
    }
}

/// Where a request to an absolute URL goes when there is nothing to resolve it
/// against.
pub open spec fn classified(url: Option<UrlModel>) -> PlanModel {
    match url {
        None => PlanModel::Reject("fetch: invalid URL"@),
        Some(url) => if is_http(url.scheme) {
            without_config(url)
        } else {
            PlanModel::Reject("fetch: unsupported URL scheme"@)
        },
    }
}

/// Where a request to an absolute URL goes when there is nothing to resolve it
/// against.
pub fn classify_parsed(url: &Option<UrlParts>) -> (plan: FetchPlan)
    ensures
        plan@ == classified(url_parts::parsed_view(*url)),
{
    match url {
        None => FetchPlan::Reject("fetch: invalid URL".to_owned()),
        Some(url) => {
            if !text::same(url.scheme.as_str(), "http") && !text::same(
                url.scheme.as_str(),
                "https",
            ) {
                return FetchPlan::Reject("fetch: unsupported URL scheme".to_owned());
            }
            plan_without_config(url)
        },
    }
}

/// What a URL is resolved against: the inbound URL, or else the canonical one,
/// or else nothing.
pub open spec fn base_of(inbound_base: Seq<char>, config: Option<LoopbackConfig>) -> Seq<char> {
    if text::trimmed(inbound_base).len() > 0 {
        text::trimmed(inbound_base)
    } else {
        match config {
            Some(config) => config.canonical_inbound_url@,
            None => Seq::empty(),
        }
    }
}

/// Where a request goes.
pub open spec fn plan_of(
    url: Seq<char>,
    inbound_base: Seq<char>,
    config: Option<LoopbackConfig>,
) -> PlanModel {
    let base = base_of(inbound_base, config);
    if base.len() == 0 {
        classified(url_parts::url_parsed(url))
    } else if url_parts::url_parsed(base) is None {
        PlanModel::Reject("fetch: invalid inbound base URL"@)
    } else {
        match url_parts::url_resolved(base, url) {
            None => PlanModel::Reject("fetch: invalid URL"@),
            Some(resolved) => planned(
                resolved,
                config,
                match config {
                    Some(config) => url_parts::url_with_host(
                        resolved.text,
                        config.synthetic_host@,
                    ),
                    None => resolved.text,
                },
            ),
        }
    }
}

/// Where a request goes.
pub fn plan_fetch(url: &str, inbound_base: &str, config: Option<&LoopbackConfig>) -> (plan: FetchPlan)
    ensures
        plan@ == plan_of(
            url@,
            inbound_base@,
            match config {
                Some(config) => Some(*config),
                None => None,
            },
        ),
{
    let inbound = text::trim(inbound_base);
    let base: String = if text::chars_of(inbound.as_str()).len() > 0 {
        inbound
    } else {
        match config {
            Some(config) => config.canonical_inbound_url.as_str().to_owned(),
            None => {
                let empty = String::new();
                assert(empty@ =~= Seq::<char>::empty());
                empty
            },
        }
    };
    if text::chars_of(base.as_str()).len() == 0 {
        let parsed = url_parts::parse_url(url);
        return classify_parsed(&parsed);
    }
    match url_parts::parse_url(base.as_str()) {
        None => return FetchPlan::Reject("fetch: invalid inbound base URL".to_owned()),
        Some(_) => {},
    }
    let resolved = match url_parts::resolve_url(base.as_str(), url) {
        None => return FetchPlan::Reject("fetch: invalid URL".to_owned()),
        Some(resolved) => resolved,
    };
    let loopback: String = match config {
        Some(config) => url_parts::with_host(
            resolved.text.as_str(),
            config.synthetic_host.as_str(),
        ),
        None => resolved.text.as_str().to_owned(),
    };
    plan_resolved(&resolved, config, loopback)
}

proof fn lemma_schemes_differ()
    ensures
        !is_http("ws"@),
        !is_http("wss"@),
{
    reveal_strlit("http");
    reveal_strlit("https");
    reveal_strlit("ws");
    reveal_strlit("wss");
    assert("http"@.len() == 4 && "https"@.len() == 5 && "ws"@.len() == 2 && "wss"@.len() == 3);
}

/// A request to the canonical origin never leaves the process.
pub proof fn law_same_origin_never_leaves(
    url: UrlModel,
    config: LoopbackConfig,
    loopback: Seq<char>,
)
    requires
        is_http(url.scheme),
        same_origin(url, config),
    ensures
        !(planned(url, Some(config), loopback) is Egress),
{
    lemma_schemes_differ();
}

/// A request over HTTP leaves for no denied port and for no metadata host.
pub proof fn law_denied_port_is_never_reached(
    url: UrlModel,
    config: Option<LoopbackConfig>,
    loopback: Seq<char>,
)
    requires
        is_http(url.scheme),
        planned(url, config, loopback) is Egress,
    ensures
        !metadata_host(host_of(url)),
        config matches Some(config) ==> !config.denied_ports@.contains(port_of(url, url.scheme)),
        config is None ==> !default_ports().contains(port_of(url, url.scheme)),
{
    lemma_schemes_differ();
}

/// The value of the first variable of this name.
pub open spec fn variable(vars: Seq<(String, String)>, name: Seq<char>) -> Option<Seq<char>>
    decreases vars.len(),
{
    if vars.len() == 0 {
        None
    } else if vars[0].0@ == name {
        Some(vars[0].1@)
    } else {
        variable(vars.drop_first(), name)
    }
}

/// The public base URL that a deployment names, where it names one.
pub open spec fn public_base(vars: Seq<(String, String)>) -> Option<Seq<char>> {
    match variable(vars, "PUBLIC_BASE_URL"@) {
        Some(value) => if value.len() > 0 {
            Some(value)
        } else {
            None
        },
        None => None,
    }
}

fn find_public_base(vars: &[(String, String)]) -> (base: Option<String>)
    ensures
        base is Some <==> public_base(vars@) is Some,
        base matches Some(base) ==> public_base(vars@) == Some(base@),
{
    let total: usize = vars.len();
    let mut at: usize = 0;
    assert(vars@.skip(0) =~= vars@);
    while at < total
        invariant
            at <= total,
            total == vars@.len(),
            variable(vars@, "PUBLIC_BASE_URL"@) == variable(
                vars@.skip(at as int),
                "PUBLIC_BASE_URL"@,
            ),
        decreases total - at,
    {
        assert(vars@.skip(at as int)[0] == vars@[at as int]);
        assert(vars@.skip(at as int).drop_first() =~= vars@.skip(at + 1));
        if text::same(vars[at].0.as_str(), "PUBLIC_BASE_URL") {
            let value = vars[at].1.as_str().to_owned();
            if text::chars_of(value.as_str()).len() > 0 {
                return Some(value);
            }
            return None;
        }
        at = at + 1;
    }
    None
}

/// A host and the port that the URL names, as one authority.
pub open spec fn authority_of(host: Seq<char>, port: Option<u16>) -> Seq<char> {
    match port {
        Some(port) => host + ":"@ + text::dec(port as nat),
        None => host,
    }
}

fn authority_text(host: &str, port: Option<u16>) -> (authority: String)
    ensures
        authority@ == authority_of(host@, port),
{
    let mut authority = host.to_owned();
    if let Some(port) = port {
        authority.append(":");
        text::push_dec(&mut authority, port as u64);
    }
    authority
}

/// Do the settings follow from the parsed public base URL?
pub open spec fn config_follows(
    config: LoopbackConfig,
    url: UrlModel,
    denied_ports: Seq<u16>,
    loopback_enabled: bool,
) -> bool {
    let scheme = canonical(url.scheme);
    let host = url.host->0;
    let port = port_of(url, scheme);
    &&& config.scheme@ == scheme
    &&& config.synthetic_host@ == host
    &&& config.port == port
    &&& config.canonical_inbound_url@ == scheme + "://"@ + host + ":"@ + text::dec(port as nat)
        + "/"@
    &&& config.denied_ports@ == denied_ports
    &&& config.loopback_enabled == loopback_enabled
}

/// The settings from the parsed public base URL: none where it has no host or
/// where its authority was not accepted.
pub fn config_from_parts(
    url: &UrlParts,
    authority_ok: bool,
    denied_ports: Vec<u16>,
    loopback_enabled: bool,
) -> (config: Option<LoopbackConfig>)
    ensures
        config is Some <==> url@.host is Some && authority_ok,
        config matches Some(config) ==> config_follows(
            config,
            url@,
            denied_ports@,
            loopback_enabled,
        ),
{
    let host: String = match &url.host {
        Some(host) => host.as_str().to_owned(),
        None => return None,
    };
    if !authority_ok {
        return None;
    }
    let scheme = canonical_scheme(url.scheme.as_str());
    let port = url_port(url, scheme.as_str());
    let mut canonical_inbound_url = scheme.as_str().to_owned();
    canonical_inbound_url.append("://");
    canonical_inbound_url.append(host.as_str());
    canonical_inbound_url.append(":");
    text::push_dec(&mut canonical_inbound_url, port as u64);
    canonical_inbound_url.append("/");
    Some(
        LoopbackConfig {
            canonical_inbound_url,
            synthetic_host: host,
            scheme,
            port,
            denied_ports,
            loopback_enabled,
        },
    )
}

/// The settings from the variables of a deployment and from the environment.
/// `authority_ok` says whether an authority may be used.
pub fn config_from_vars<F: Fn(&String) -> bool>(
    vars: &[(String, String)],
    denied_ports: Option<&str>,
    loopback: Option<bool>,
    authority_ok: F,
) -> (config: Option<LoopbackConfig>)
    requires
        forall|authority: &String| #[trigger] call_requires(authority_ok, (authority,)),
    ensures
        match public_base(vars@) {
            None => config is None,
            Some(base) => match url_parts::url_parsed(base) {
                None => config is None,
                Some(url) => match url.host {
                    None => config is None,
                    Some(host) => exists|authority: &String, accepted: bool|
                        {
                            &&& #[trigger] call_ensures(authority_ok, (authority,), accepted)
                            &&& authority@ == authority_of(host, url.port)
                            &&& config is Some <==> accepted
                            &&& config matches Some(config) ==> config_follows(
                                config,
                                url,
                                match denied_ports {
                                    Some(raw) => if listed_ports(
                                        text::segments(raw@, ','),
                                    ).len() > 0 {
                                        listed_ports(text::segments(raw@, ','))
                                    } else {
                                        default_ports()
                                    },
                                    None => default_ports(),
                                },
                                match loopback {
                                    Some(setting) => setting,
                                    None => true,
                                },
                            )
                        },
                },
            },
        },
{
    let base = match find_public_base(vars) {
        Some(base) => base,
        None => return None,
    };
    let url = match url_parts::parse_url(base.as_str()) {
        Some(url) => url,
        None => return None,
    };
    let authority: String = match &url.host {
        Some(host) => authority_text(host.as_str(), url.port),
        None => return None,
    };
    let accepted = authority_ok(&authority);
    let ports = denied_ports_from_env(denied_ports);
    let enabled = loopback_flag_enabled(loopback);
    let config = config_from_parts(&url, accepted, ports, enabled);
    assert(call_ensures(authority_ok, (&authority,), accepted));
    config
}

/// The members of a plan's JSON object, in order.
pub open spec fn plan_members(plan: PlanModel) -> Seq<(Seq<char>, Seq<char>)> {
    match plan {
        PlanModel::Loopback { url, host } => seq![
            ("action"@, "loopback"@),
            ("url"@, url),
            ("host"@, host),
        ],
        PlanModel::Egress => seq![("action"@, "egress"@)],
        PlanModel::Reject(message) => seq![("action"@, "reject"@), ("error"@, message)],
    }
}

/// The members of a plan's JSON object, in order.
pub fn plan_fields(plan: &FetchPlan) -> (fields: Vec<(String, String)>)
    ensures
        json::field_views(fields@) == plan_members(plan@),
{
    let mut fields: Vec<(String, String)> = Vec::new();
    match plan {
        FetchPlan::Loopback { url, host } => {
            fields.push(("action".to_owned(), "loopback".to_owned()));
            fields.push(("url".to_owned(), url.as_str().to_owned()));
            fields.push(("host".to_owned(), host.as_str().to_owned()));
        },
        FetchPlan::Egress => {
            fields.push(("action".to_owned(), "egress".to_owned()));
        },
        FetchPlan::Reject(message) => {
            fields.push(("action".to_owned(), "reject".to_owned()));
            fields.push(("error".to_owned(), message.as_str().to_owned()));
        },
    }
    assert(json::field_views(fields@) =~= plan_members(plan@));
    fields
}

/// A plan as a JSON object.
pub fn plan_to_json(plan: &FetchPlan) -> (text: String)
    ensures
        text@ == json::object_written(plan_members(plan@)),
{
    json::object_text(plan_fields(plan))
}

/// What a worker's own origin is planned as: a URL whose parts are those of the
/// public base is of the canonical origin.
pub proof fn law_public_base_is_the_canonical_origin(
    config: LoopbackConfig,
    url: UrlModel,
    denied_ports: Seq<u16>,
    loopback_enabled: bool,
)
    requires
        url.host is Some,
        normal_host(url.host->0) is Some,
        config_follows(config, url, denied_ports, loopback_enabled),
    ensures
        same_origin(url, config),
{
}

/// No two names of schemes are the same.
proof fn lemma_scheme_names_differ()
    ensures
        "http"@ != "https"@,
        "http"@ != "ws"@,
        "http"@ != "wss"@,
        "https"@ != "ws"@,
        "https"@ != "wss"@,
        "ws"@ != "wss"@,
{
    reveal_strlit("http");
    reveal_strlit("https");
    reveal_strlit("ws");
    reveal_strlit("wss");
    assert("http"@.len() != "https"@.len());
    assert("http"@.len() != "ws"@.len());
    assert("http"@.len() != "wss"@.len());
    assert("https"@.len() != "ws"@.len());
    assert("https"@.len() != "wss"@.len());
    assert("ws"@.len() != "wss"@.len());
}

proof fn lemma_http_is_canonical()
    ensures
        canonical("http"@) == "http"@,
        canonical("https"@) == "https"@,
{
    reveal_strlit("http");
    reveal_strlit("https");
    assert(text::lower("http"@) =~= "http"@);
    assert(text::lower("https"@) =~= "https"@);
}

/// The ports of the platform are denied, and no others.
pub proof fn law_platform_ports_are_denied(ports: Vec<u16>, port: u16)
    requires
        call_ensures(default_denied_ports, (), ports),
    ensures
        ports@.contains(port) <==> port == 8787 || 8790 <= port <= 8799,
        forall|i: int, j: int| 0 <= i < j < ports@.len() ==> ports@[i] < ports@[j],
{
    assert(ports@[0] == 8787 && ports@[1] == 8790 && ports@[2] == 8791 && ports@[3] == 8792
        && ports@[4] == 8793 && ports@[5] == 8794 && ports@[6] == 8795 && ports@[7] == 8796
        && ports@[8] == 8797 && ports@[9] == 8798 && ports@[10] == 8799);
    if 8790 <= port <= 8799 {
        assert(ports@[port - 8789] == port);
    }
}

proof fn lemma_listed_ports(parts: Seq<Seq<char>>)
    ensures
        forall|i: int|
            0 <= i < parts.len() && text::parsed_dec(
                text::trimmed(#[trigger] parts[i]),
                65535,
            ) is Some ==> listed_ports(parts).contains(
                text::parsed_dec(text::trimmed(parts[i]), 65535)->0 as u16,
            ),
        forall|port: u16| #[trigger]
            listed_ports(parts).contains(port) ==> exists|i: int|
                0 <= i < parts.len() && text::parsed_dec(
                    text::trimmed(#[trigger] parts[i]),
                    65535,
                ) is Some && text::parsed_dec(text::trimmed(parts[i]), 65535)->0 as u16 == port,
    decreases parts.len(),
{
    if parts.len() > 0 {
        let rest = parts.drop_last();
        lemma_listed_ports(rest);
        let all = listed_ports(parts);
        let before = listed_ports(rest);
        assert forall|i: int|
            0 <= i < parts.len() && text::parsed_dec(
                text::trimmed(#[trigger] parts[i]),
                65535,
            ) is Some implies all.contains(
            text::parsed_dec(text::trimmed(parts[i]), 65535)->0 as u16,
        ) by {
            let port = text::parsed_dec(text::trimmed(parts[i]), 65535)->0 as u16;
            if i < rest.len() {
                assert(rest[i] == parts[i]);
                assert(before.contains(port));
                let k = choose|k: int| 0 <= k < before.len() && before[k] == port;
                assert(all[k] == port);
            } else {
                assert(all[all.len() - 1] == port);
            }
        }
        assert forall|port: u16| #[trigger] all.contains(port) implies exists|i: int|
            0 <= i < parts.len() && text::parsed_dec(
                text::trimmed(#[trigger] parts[i]),
                65535,
            ) is Some && text::parsed_dec(text::trimmed(parts[i]), 65535)->0 as u16 == port by {
            let k = choose|k: int| 0 <= k < all.len() && all[k] == port;
            if k < before.len() {
                assert(before[k] == port);
                assert(before.contains(port));
                let i = choose|i: int|
                    0 <= i < rest.len() && text::parsed_dec(
                        text::trimmed(#[trigger] rest[i]),
                        65535,
                    ) is Some && text::parsed_dec(text::trimmed(rest[i]), 65535)->0 as u16 == port;
                assert(parts[i] == rest[i]);
            } else {
                assert(parts[parts.len() - 1] == parts.last());
            }
        }
    }
}

/// A list of denied ports denies each port that it names between commas, blanks
/// aside, and no other; without a list, or with one that names none, the ports of
/// the platform are denied.
pub proof fn law_denied_ports_are_the_listed_ones(
    raw: Option<&str>,
    ports: Vec<u16>,
    usual: Vec<u16>,
)
    requires
        call_ensures(denied_ports_from_env, (raw,), ports),
        call_ensures(default_denied_ports, (), usual),
    ensures
        raw is None ==> ports@ == usual@,
        raw matches Some(raw) ==> {
            let parts = text::segments(raw@, ',');
            &&& forall|i: int|
                0 <= i < parts.len() && text::parsed_dec(
                    text::trimmed(#[trigger] parts[i]),
                    65535,
                ) is Some ==> ports@.contains(
                    text::parsed_dec(text::trimmed(parts[i]), 65535)->0 as u16,
                )
            &&& (forall|i: int|
                0 <= i < parts.len() ==> text::parsed_dec(
                    text::trimmed(#[trigger] parts[i]),
                    65535,
                ) is None) ==> ports@ == usual@
            &&& ports@ == usual@ || forall|port: u16| #[trigger]
                ports@.contains(port) ==> exists|i: int|
                    0 <= i < parts.len() && text::parsed_dec(
                        text::trimmed(#[trigger] parts[i]),
                        65535,
                    ) is Some && text::parsed_dec(text::trimmed(parts[i]), 65535)->0 as u16 == port
        },
{
    if let Some(raw) = raw {
        let parts = text::segments(raw@, ',');
        lemma_listed_ports(parts);
        let listed = listed_ports(parts);
        if listed.len() > 0 {
            assert(listed.contains(listed[0]));
        } else {
            assert forall|i: int| 0 <= i < parts.len() implies text::parsed_dec(
                text::trimmed(#[trigger] parts[i]),
                65535,
            ) is None by {
                if text::parsed_dec(text::trimmed(parts[i]), 65535) is Some {
                    assert(listed.contains(
                        text::parsed_dec(text::trimmed(parts[i]), 65535)->0 as u16,
                    ));
                }
            }
        }
    }
}

/// The loopback is off only where it was switched off.
pub proof fn law_loopback_is_on_unless_switched_off(setting: Option<bool>, enabled: bool)
    requires
        call_ensures(loopback_flag_enabled, (setting,), enabled),
    ensures
        !enabled <==> setting == Some(false),
{
}

proof fn lemma_without_dots(host: Seq<char>)
    ensures
        without_dots(host).len() <= host.len(),
        forall|i: int| 0 <= i < without_dots(host).len() ==> #[trigger] without_dots(host)[i] == host[i],
        forall|i: int| without_dots(host).len() <= i < host.len() ==> #[trigger] host[i] == '.',
        without_dots(host).len() > 0 ==> host[without_dots(host).len() - 1] != '.',
    decreases host.len(),
{
    if host.len() > 0 && host.last() == '.' {
        let rest = host.drop_last();
        lemma_without_dots(rest);
        let n = without_dots(host).len();
        assert forall|i: int| 0 <= i < n implies #[trigger] without_dots(host)[i] == host[i] by {
            assert(without_dots(rest)[i] == rest[i]);
        }
        assert forall|i: int| n <= i < host.len() implies #[trigger] host[i] == '.' by {
            if i < rest.len() {
                assert(rest[i] == host[i]);
            }
        }
        if n > 0 {
            assert(rest[n - 1] == host[n - 1]);
        }
    } else if host.len() > 0 {
        assert(host[host.len() - 1] == host.last());
    }
}

/// A host loses exactly the dots at its end and its capitals; one of dots alone is
/// none.
pub proof fn law_host_loses_its_dots_and_capitals(host: &str, normal: Option<String>)
    requires
        call_ensures(normalize_host, (host,), normal),
    ensures
        normal is None <==> forall|i: int| 0 <= i < host@.len() ==> #[trigger] host@[i] == '.',
        normal matches Some(normal) ==> {
            &&& 0 < normal@.len() <= host@.len()
            &&& forall|i: int|
                0 <= i < normal@.len() ==> #[trigger] normal@[i] == text::lower_char(host@[i])
            &&& forall|i: int| normal@.len() <= i < host@.len() ==> #[trigger] host@[i] == '.'
            &&& host@[normal@.len() - 1] != '.'
        },
{
    lemma_without_dots(host@);
    if normal is Some {
        let n = without_dots(host@).len();
        assert(host@[n - 1] != '.');
    }
}

/// A URL is of the canonical origin exactly when its scheme, its host but for dots
/// and capitals, and its port are the origin's. The port is the one that the URL
/// has, or 443 for `https` and 80 otherwise.
pub proof fn law_origin_is_scheme_host_and_port(
    url: UrlParts,
    config: LoopbackConfig,
    matching: bool,
    url_host: &str,
    own_host: &str,
    url_normal: Option<String>,
    own_normal: Option<String>,
)
    requires
        call_ensures(origins_match, (&url, &config), matching),
        url.scheme@ == "http"@ || url.scheme@ == "https"@,
        url.host is Some,
        url_host@ == url.host->0@,
        own_host@ == config.synthetic_host@,
        call_ensures(normalize_host, (url_host,), url_normal),
        call_ensures(normalize_host, (own_host,), own_normal),
    ensures
        matching <==> url.scheme@ == config.scheme@ && url_normal is Some && own_normal is Some
            && url_normal->0@ == own_normal->0@ && config.port == (if url.known_port is Some {
            url.known_port->0
        } else if url.scheme@ == "https"@ {
            443
        } else {
            80
        }),
{
    lemma_http_is_canonical();
}

/// A URL without a host is of no origin.
pub proof fn law_no_host_is_no_origin(url: UrlParts, config: LoopbackConfig, matching: bool)
    requires
        call_ensures(origins_match, (&url, &config), matching),
        url.host is None,
    ensures
        !matching,
{
}

/// The metadata host is told by its name and by every name below it, whatever the
/// capitals.
pub proof fn law_metadata_host_is_told_by_its_name(host: &str, found: bool)
    requires
        call_ensures(is_metadata_host, (host,), found),
    ensures
        ({
            let small = host@.map_values(|ch: char| text::lower_char(ch));
            let name = "metadata.google.internal"@;
            let below = ".metadata.google.internal"@;
            found <==> small == name || small.len() >= below.len() && small.skip(
                small.len() - below.len(),
            ) == below
        }),
{
    let small = host@.map_values(|ch: char| text::lower_char(ch));
    assert(text::lower(host@) =~= small);
    let below = ".metadata.google.internal"@;
    if small.len() >= below.len() {
        assert(small.skip(small.len() - below.len()) =~= small.subrange(
            small.len() - below.len(),
            small.len() as int,
        ));
    }
}

/// An address is local exactly in these networks: 127/8, 10/8, 172.16/12,
/// 192.168/16 and 169.254/16; and of the longer ones the two lowest, fc00/7 and
/// fe80/10.
pub proof fn law_local_networks(ip: IpLiteral, local: bool)
    requires
        call_ensures(is_restricted_ip, (ip,), local),
    ensures
        ip matches IpLiteral::V4 { a, b, .. } ==> {
            let net = a * 256 + b;
            local <==> net / 256 == 127 || net / 256 == 10 || net / 16 == (172 * 256 + 16) / 16
                || net == 192 * 256 + 168 || net == 169 * 256 + 254
        },
        ip matches IpLiteral::V6 { first, middle_zero, last } ==> (local <==> first == 0
            && middle_zero && (last == 0 || last == 1) || first / 512 == 0xfc00u16 / 512 || first
            / 64 == 0xfe80u16 / 64),
{
}

/// Only a denied port is restricted, and only on a host that is local by its name
/// or by its address.
pub proof fn law_local_listener_is_restricted(
    host: &str,
    port: u16,
    denied_ports: Vec<u16>,
    ip: Option<IpLiteral>,
    restricted: bool,
    metadata: bool,
    local: bool,
)
    requires
        call_ensures(is_restricted_endpoint, (host, port, &denied_ports, ip), restricted),
        call_ensures(is_metadata_host, (host,), metadata),
        ip is Some ==> call_ensures(is_restricted_ip, (ip->0,), local),
    ensures
        ({
            let below = ".localhost"@;
            restricted <==> denied_ports@.contains(port) && (metadata || host@ == "localhost"@ || (
            host@.len() >= below.len() && host@.skip(host@.len() - below.len()) == below)
                || ip is Some && local)
        }),
{
    let below = ".localhost"@;
    if host@.len() >= below.len() {
        assert(host@.skip(host@.len() - below.len()) =~= host@.subrange(
            host@.len() - below.len(),
            host@.len() as int,
        ));
    }
}

/// A request is refused as one to the platform exactly when its port is denied or
/// its host is the metadata host.
pub proof fn law_platform_is_refused_and_nothing_else(
    host: &str,
    port: u16,
    denied_ports: Vec<u16>,
    plan: Option<FetchPlan>,
    metadata: bool,
)
    requires
        call_ensures(platform_listener_reject, (host, port, &denied_ports), plan),
        call_ensures(is_metadata_host, (host,), metadata),
    ensures
        plan is Some <==> denied_ports@.contains(port) || metadata,
        plan is Some ==> plan->0 is Reject,
{
}

/// Where a request over HTTP goes that is not of the canonical origin: out, unless
/// its port is denied or its host is the metadata host, with settings and without.
pub proof fn law_foreign_request_goes_out(
    url: UrlParts,
    config: Option<&LoopbackConfig>,
    loopback: String,
    plan: FetchPlan,
    host: &str,
    port: u16,
    metadata: bool,
    usual: Vec<u16>,
)
    requires
        call_ensures(plan_resolved, (&url, config, loopback), plan),
        url.scheme@ == "http"@ || url.scheme@ == "https"@,
        host@ == if url.host is Some {
            url.host->0@
        } else {
            Seq::empty()
        },
        port == if url.known_port is Some {
            url.known_port->0
        } else if url.scheme@ == "https"@ {
            443
        } else {
            80
        },
        call_ensures(is_metadata_host, (host,), metadata),
        call_ensures(default_denied_ports, (), usual),
        config matches Some(config) ==> call_ensures(origins_match, (&url, config), false),
    ensures
        ({
            let denied = if config is Some {
                config->0.denied_ports@
            } else {
                usual@
            };
            &&& plan is Egress <==> !denied.contains(port) && !metadata
            &&& plan is Reject <==> denied.contains(port) || metadata
        }),
{
    lemma_scheme_names_differ();
    lemma_http_is_canonical();
    lemma_plan_view(plan);
}

proof fn lemma_plan_view(plan: FetchPlan)
    ensures
        plan@ is Egress <==> plan is Egress,
        plan@ is Reject <==> plan is Reject,
        plan@ is Loopback <==> plan is Loopback,
{
}

/// Where a request over HTTP goes that is of the canonical origin: back into this
/// process under the origin's host, or nowhere where the loopback is off.
pub proof fn law_own_request_comes_back(
    url: UrlParts,
    config: &LoopbackConfig,
    loopback: String,
    plan: FetchPlan,
)
    requires
        call_ensures(plan_resolved, (&url, Some(config), loopback), plan),
        url.scheme@ == "http"@ || url.scheme@ == "https"@,
        call_ensures(origins_match, (&url, config), true),
    ensures
        config.loopback_enabled ==> (plan matches FetchPlan::Loopback { url: to, host } && to@
            == loopback@ && host@ == config.synthetic_host@),
        !config.loopback_enabled ==> plan is Reject,
{
    lemma_scheme_names_differ();
    lemma_plan_view(plan);
}

/// A request over a web socket goes out, and one over any other scheme nowhere.
pub proof fn law_other_schemes(
    url: UrlParts,
    config: Option<&LoopbackConfig>,
    loopback: String,
    plan: FetchPlan,
)
    requires
        call_ensures(plan_resolved, (&url, config, loopback), plan),
    ensures
        url.scheme@ == "ws"@ || url.scheme@ == "wss"@ ==> plan is Egress,
        url.scheme@ != "ws"@ && url.scheme@ != "wss"@ && url.scheme@ != "http"@ && url.scheme@
            != "https"@ ==> plan is Reject,
{
    lemma_plan_view(plan);
}

/// A request that nothing can resolve is planned by its own URL: one that does not
/// parse or is not over HTTP goes nowhere, any other as it would without settings.
pub proof fn law_absolute_request_is_planned_by_itself(
    url: Option<UrlParts>,
    plan: FetchPlan,
    loopback: String,
    resolved: FetchPlan,
)
    requires
        call_ensures(classify_parsed, (&url,), plan),
        url is Some ==> call_ensures(plan_resolved, (&url->0, None, loopback), resolved),
    ensures
        url is None ==> plan is Reject,
        url is Some && (url->0.scheme@ == "http"@ || url->0.scheme@ == "https"@) ==> (plan is Egress
            <==> resolved is Egress) && (plan is Reject <==> resolved is Reject) && !(
        plan is Loopback),
        url is Some && url->0.scheme@ != "http"@ && url->0.scheme@ != "https"@ ==> plan is Reject,
{
    lemma_scheme_names_differ();
    lemma_plan_view(plan);
    lemma_plan_view(resolved);
}

/// A request is resolved against the inbound URL where there is one, or else
/// against the canonical one, and then planned as what it resolves to, the loopback
/// under the canonical host. A base or a URL that does not parse goes nowhere. With
/// nothing to resolve it against, a URL is planned by itself.
pub proof fn law_request_is_planned_as_it_resolves(
    url: &str,
    inbound_base: &str,
    config: Option<&LoopbackConfig>,
    plan: FetchPlan,
    base: Seq<char>,
    parts: UrlParts,
    loopback: String,
    resolved: FetchPlan,
    alone: Option<UrlParts>,
    by_itself: FetchPlan,
)
    requires
        call_ensures(plan_fetch, (url, inbound_base, config), plan),
        base == if text::trimmed(inbound_base@).len() > 0 {
            text::trimmed(inbound_base@)
        } else if config is Some {
            config->0.canonical_inbound_url@
        } else {
            Seq::empty()
        },
        url_parts::url_resolved(base, url@) is Some ==> parts.scheme@ == url_parts::url_resolved(
            base,
            url@,
        )->0.scheme && parts.known_port == url_parts::url_resolved(base, url@)->0.known_port
            && parts.port == url_parts::url_resolved(base, url@)->0.port && parts.text@
            == url_parts::url_resolved(base, url@)->0.text && parts@
            == url_parts::url_resolved(base, url@)->0,
        loopback@ == if config is Some {
            url_parts::url_with_host(parts.text@, config->0.synthetic_host@)
        } else {
            parts.text@
        },
        call_ensures(plan_resolved, (&parts, config, loopback), resolved),
        url_parts::parsed_view(alone) == url_parts::url_parsed(url@),
        call_ensures(classify_parsed, (&alone,), by_itself),
    ensures
        base.len() == 0 ==> (plan is Egress <==> by_itself is Egress) && (plan is Reject
            <==> by_itself is Reject) && !(plan is Loopback),
        base.len() > 0 && url_parts::url_parsed(base) is None ==> plan is Reject,
        base.len() > 0 && url_parts::url_parsed(base) is Some && url_parts::url_resolved(
            base,
            url@,
        ) is None ==> plan is Reject,
        base.len() > 0 && url_parts::url_parsed(base) is Some && url_parts::url_resolved(
            base,
            url@,
        ) is Some ==> {
            &&& plan is Egress <==> resolved is Egress
            &&& plan is Reject <==> resolved is Reject
            &&& plan matches FetchPlan::Loopback { url: to, host } ==> (resolved matches
                FetchPlan::Loopback { url: other_to, host: other_host } && to@ == other_to@
                && host@ == other_host@)
        },
{
    lemma_plan_view(plan);
    lemma_plan_view(resolved);
    lemma_plan_view(by_itself);
}

/// The settings of a worker are its public base URL, taken apart: its scheme, its
/// host, and the port that it has or that its scheme is known for. There are none
/// without a host or an accepted authority.
pub proof fn law_settings_are_the_public_base(
    url: UrlParts,
    authority_ok: bool,
    denied_ports: Vec<u16>,
    loopback_enabled: bool,
    config: Option<LoopbackConfig>,
)
    requires
        call_ensures(
            config_from_parts,
            (&url, authority_ok, denied_ports, loopback_enabled),
            config,
        ),
        url.scheme@ == "http"@ || url.scheme@ == "https"@,
    ensures
        config is Some <==> url.host is Some && authority_ok,
        config matches Some(config) ==> {
            &&& config.scheme@ == url.scheme@
            &&& config.synthetic_host@ == url.host->0@
            &&& config.port == if url.known_port is Some {
                url.known_port->0
            } else if url.scheme@ == "https"@ {
                443
            } else {
                80
            }
            &&& config.canonical_inbound_url@ == url.scheme@ + "://"@ + url.host->0@ + ":"@
                + text::dec(config.port as nat) + "/"@
            &&& config.denied_ports@ == denied_ports@
            &&& config.loopback_enabled == loopback_enabled
        },
{
    lemma_http_is_canonical();
}

/// A worker's own public base is fetched through its loopback.
pub proof fn law_public_base_is_fetched_through_the_loopback(
    url: UrlParts,
    denied_ports: Vec<u16>,
    config: &LoopbackConfig,
    loopback: String,
    plan: FetchPlan,
    host: &str,
    normal: Option<String>,
)
    requires
        url.scheme@ == "http"@ || url.scheme@ == "https"@,
        url.host is Some,
        host@ == url.host->0@,
        call_ensures(normalize_host, (host,), normal),
        normal is Some,
        call_ensures(config_from_parts, (&url, true, denied_ports, true), Some(*config)),
        call_ensures(plan_resolved, (&url, Some(config), loopback), plan),
    ensures
        plan matches FetchPlan::Loopback { url: to, host: under } && to@ == loopback@ && under@
            == url.host->0@,
{
    lemma_scheme_names_differ();
    lemma_http_is_canonical();
    lemma_plan_view(plan);
}

proof fn lemma_variable(vars: Seq<(String, String)>, name: Seq<char>, at: int)
    requires
        0 <= at < vars.len(),
        vars[at].0@ == name,
        forall|i: int| 0 <= i < at ==> (#[trigger] vars[i]).0@ != name,
    ensures
        variable(vars, name) == Some(vars[at].1@),
    decreases at,
{
    if at > 0 {
        assert(vars[0].0@ != name);
        let rest = vars.drop_first();
        assert(rest[at - 1] == vars[at]);
        assert forall|i: int| 0 <= i < at - 1 implies (#[trigger] rest[i]).0@ != name by {
            assert(rest[i] == vars[i + 1]);
        }
        lemma_variable(rest, name, at - 1);
    }
}

proof fn lemma_no_variable(vars: Seq<(String, String)>, name: Seq<char>)
    requires
        forall|i: int| 0 <= i < vars.len() ==> (#[trigger] vars[i]).0@ != name,
    ensures
        variable(vars, name) is None,
    decreases vars.len(),
{
    if vars.len() > 0 {
        assert(vars[0].0@ != name);
        let rest = vars.drop_first();
        assert forall|i: int| 0 <= i < rest.len() implies (#[trigger] rest[i]).0@ != name by {
            assert(rest[i] == vars[i + 1]);
        }
        lemma_no_variable(rest, name);
    }
}

/// The public base is the first variable of its name. Without one, with an empty
/// one, or with one that does not parse or has no host, there are no settings;
/// with a sound one they are those of its parts, where its authority, the host and
/// the port that it names, is accepted.
pub proof fn law_settings_come_of_the_first_public_base<F: Fn(&String) -> bool>(
    vars: &[(String, String)],
    denied_ports: Option<&str>,
    loopback: Option<bool>,
    authority_ok: F,
    config: Option<LoopbackConfig>,
    at: int,
    ports: Vec<u16>,
    enabled: bool,
)
    requires
        call_ensures(
            config_from_vars::<F>,
            (vars, denied_ports, loopback, authority_ok),
            config,
        ),
        call_ensures(denied_ports_from_env, (denied_ports,), ports),
        call_ensures(loopback_flag_enabled, (loopback,), enabled),
        0 <= at <= vars@.len(),
        forall|i: int| 0 <= i < at ==> (#[trigger] vars@[i]).0@ != "PUBLIC_BASE_URL"@,
        at < vars@.len() ==> vars@[at].0@ == "PUBLIC_BASE_URL"@,
    ensures
        at == vars@.len() ==> config is None,
        at < vars@.len() && vars@[at].1@.len() == 0 ==> config is None,
        at < vars@.len() && url_parts::url_parsed(vars@[at].1@) is None ==> config is None,
        at < vars@.len() && vars@[at].1@.len() > 0 && url_parts::url_parsed(
            vars@[at].1@,
        ) is Some ==> {
            let url = url_parts::url_parsed(vars@[at].1@)->0;
            &&& url.host is None ==> config is None
            &&& url.host is Some ==> exists|authority: &String, accepted: bool|
                {
                    &&& #[trigger] call_ensures(authority_ok, (authority,), accepted)
                    &&& url.port is None ==> authority@ == url.host->0
                    &&& url.port matches Some(port) ==> authority@ == url.host->0 + ":"@
                        + text::dec(port as nat)
                    &&& config is Some <==> accepted
                    &&& config matches Some(config) ==> config.synthetic_host@ == url.host->0
                        && config.denied_ports@ == ports@ && config.loopback_enabled == enabled && (
                    url.known_port matches Some(port) ==> config.port == port) && ((url.scheme
                        == "http"@ || url.scheme == "https"@) ==> config.scheme@ == url.scheme)
                }
        },
{
    lemma_http_is_canonical();
    if at < vars@.len() {
        lemma_variable(vars@, "PUBLIC_BASE_URL"@, at);
    } else {
        lemma_no_variable(vars@, "PUBLIC_BASE_URL"@);
    }
}

/// A plan's members tell its kind and what goes with it.
pub proof fn law_plan_is_told_by_its_members(plan: FetchPlan, fields: Vec<(String, String)>)
    requires
        call_ensures(plan_fields, (&plan,), fields),
    ensures
        fields@.len() > 0 && fields@[0].0@ == "action"@,
        plan is Egress ==> fields@.len() == 1 && fields@[0].1@ == "egress"@,
        plan matches FetchPlan::Reject(message) ==> fields@.len() == 2 && fields@[0].1@
            == "reject"@ && fields@[1].0@ == "error"@ && fields@[1].1@ == message@,
        plan matches FetchPlan::Loopback { url, host } ==> fields@.len() == 3 && fields@[0].1@
            == "loopback"@ && fields@[1].0@ == "url"@ && fields@[1].1@ == url@ && fields@[2].0@
            == "host"@ && fields@[2].1@ == host@,
{
    let views = json::field_views(fields@);
    assert(views.len() == fields@.len());
    assert(views[0] == (fields@[0].0@, fields@[0].1@));
    if fields@.len() > 1 {
        assert(views[1] == (fields@[1].0@, fields@[1].1@));
    }
    if fields@.len() > 2 {
        assert(views[2] == (fields@[2].0@, fields@[2].1@));
    }
}

/// What is rejected before anything is known of its origin is told why: no URL, no
/// scheme that can be fetched, or the platform itself.
pub proof fn law_rejected_url_is_told_why(
    url: Option<UrlParts>,
    plan: FetchPlan,
    host: &str,
    port: u16,
    denied_ports: Vec<u16>,
    rejected: Option<FetchPlan>,
)
    requires
        call_ensures(classify_parsed, (&url,), plan),
        call_ensures(platform_listener_reject, (host, port, &denied_ports), rejected),
    ensures
        url is None ==> (plan matches FetchPlan::Reject(message) && message@
            == "fetch: invalid URL"@),
        url matches Some(url) ==> (url.scheme@ != "http"@ && url.scheme@ != "https"@ ==> (
        plan matches FetchPlan::Reject(message) && message@ == "fetch: unsupported URL scheme"@)),
        rejected matches Some(plan) ==> (plan matches FetchPlan::Reject(message) && message@
            == "fetch: disallowed request to a local platform listener"@),
{
}

/// A plan is written as the JSON object of its members.
pub proof fn law_plan_is_written_with_its_members(
    plan: FetchPlan,
    fields: Vec<(String, String)>,
    text: String,
)
    requires
        call_ensures(plan_fields, (&plan,), fields),
        call_ensures(plan_to_json, (&plan,), text),
    ensures
        text@ == json::object_written(json::field_views(fields@)),
{
}

/// Capitals in `http` and `https` do not matter to the origin of a URL, and any other
/// scheme is of the canonical origin only where it is the origin's own.
pub proof fn law_scheme_is_told_whatever_its_capitals(
    url: UrlParts,
    small: UrlParts,
    config: LoopbackConfig,
    matching: bool,
    also: bool,
)
    requires
        call_ensures(origins_match, (&url, &config), matching),
        call_ensures(origins_match, (&small, &config), also),
        small.host == url.host && small.known_port == url.known_port,
        small.scheme@ == url.scheme@.map_values(|ch: char| text::lower_char(ch)),
    ensures
        small.scheme@ == "http"@ || small.scheme@ == "https"@ ==> matching == also,
        small.scheme@ != "http"@ && small.scheme@ != "https"@ && matching ==> url.scheme@
            == config.scheme@,
{
    lemma_http_is_canonical();
    assert(text::lower(url.scheme@) =~= small.scheme@);
}

} // verus!
