use std::collections::HashMap;

use mod_rewrite::cache::{AuthCache, CacheEntry};
use mod_rewrite::config::{
    header_is_valid, Configuration, ConfigurationHubConfiguration, ConfigurationHubs, ExtraHeaders,
    HttpAdapter, JsonEnvironmentVarsTree, Kernel, NetworkConfiguration, StaticHubConfiguration,
    UpstreamConfiguration,
};
use mod_rewrite::context::{
    ContextProvider, DateCtx, EngineCtx, EnvCtx, Provider, RequestCtx, ServerCtx,
};
use mod_rewrite::escape::percent_encode;
use mod_rewrite::expr::Rewrite;
use mod_rewrite::extra::{join_query, split_query, State};
use mod_rewrite::parse::tokenize;
use mod_rewrite::text::{decimal_string, parse_i32};
use mod_rewrite::matcher::Compare;
use mod_rewrite::rule::{Rule, RuleShift};

#[test]
fn cache_entry_counts_updates() {
    let mut e = CacheEntry::new(true);
    assert_eq!(e.uses(), 0);
    e.update(false);
    e.update(true);
    assert_eq!(e.uses(), 2);
    assert!(*e.value());
}

#[test]
fn cache_evicts_least_used() {
    let mut c: AuthCache<u32> = AuthCache::new(2);
    c.insert(b"a".to_vec(), 1);
    c.insert(b"b".to_vec(), 2);
    c.insert(b"a".to_vec(), 3);
    assert_eq!(c.get(b"a"), Some(&3));
    c.insert(b"c".to_vec(), 4);
    assert_eq!(c.get(b"b"), None);
    assert_eq!(c.get(b"a"), Some(&3));
    assert_eq!(c.get(b"c"), Some(&4));
    c.set_size(1);
    c.insert(b"d".to_vec(), 5);
    assert_eq!(c.get(b"d"), Some(&5));
    assert_eq!(c.get(b"a"), None);
    assert_eq!(c.get(b"c"), None);
}

fn sample_configuration() -> Configuration {
    let mut headers = HashMap::new();
    headers.insert(String::from("X-A"), String::from("b"));
    Configuration {
        network: Some(NetworkConfiguration { port: Some(9000), host: None }),
        global: None,
        hubs: Some(ConfigurationHubs {
            _static: Some(StaticHubConfiguration {
                remote_path: None,
                path: Some(String::from("/srv/www")),
                rewrite_rules: Some(String::from("RewriteRule ^/a$ /b [L]\n\nRewriteRule ^/b$ /c")),
                headers: Some(headers),
            }),
            configuration: None,
            upstream: None,
        }),
    }
}

#[test]
fn kernel_settings() {
    let kernel = Kernel::new(sample_configuration());
    let adapter = kernel.setup_http_adapter();
    assert_eq!(adapter.port(), 9000);
    assert_eq!(adapter.host(), "localhost");
    assert_eq!(adapter.static_path(), "/srv/www");
    assert_eq!(adapter.remote_path(), "/");
    assert_eq!(adapter.index_document(), "index.html");
    let engine = adapter.engine().unwrap();
    assert_eq!(engine.groups().len(), 2);
    assert_eq!(engine.rewrite("/a").unwrap(), Rewrite::Uri(String::from("/c")));
}

#[test]
fn test_new_environment() {
    let prefix = "STHUB__";
    let env = JsonEnvironmentVarsTree::new(prefix);
    assert_eq!(env.prefix(), prefix);
}

#[test]
fn cache_default_is_empty() {
    let c: AuthCache<bool> = AuthCache::default();
    assert_eq!(c.get(b"x"), None);
}

#[test]
fn environment_tree_prefix() {
    assert!(JsonEnvironmentVarsTree::valid_prefix("STHUB__"));
    assert!(!JsonEnvironmentVarsTree::valid_prefix("STHUB"));
    let tree = JsonEnvironmentVarsTree::new("STHUB__");
    assert_eq!(tree.prefix(), "STHUB__");
}

#[test]
fn engine_ctx_first_provider_wins() {
    let mut ctx: EngineCtx<Provider> = EngineCtx::default()
        .with_ctx(Provider::Request(RequestCtx::default().request_uri("/first")))
        .with_ctx(Provider::Request(RequestCtx::default().request_uri("/second")))
        .with_ctx(Provider::Server(ServerCtx::default().server_admin("root")));
    assert_eq!(ctx.fill("REQUEST_URI"), "/first");
    assert_eq!(ctx.fill("SERVER_ADMIN"), "root");
    assert_eq!(ctx.fill("SERVER_NAME"), "");
    assert_eq!(ctx.fill("UNKNOWN"), "");
    assert_eq!(
        ctx.replace_all("%{REQUEST_URI}-%{UNKNOWN}-%{SERVER_ADMIN}%{"),
        "/first--root%{"
    );
    assert_eq!(ctx.replace_all("100%{}"), "100%{}");
}

#[test]
fn env_provider_needs_env_prefix() {
    let env = EnvCtx::from_vars(vec![String::from("HOME")], vec![String::from("/root")]);
    assert_eq!(env.get("ENV:HOME"), Some(String::from("/root")));
    assert_eq!(env.get("env:HOME"), Some(String::from("/root")));
    assert_eq!(env.get("HOME"), None);
    assert_eq!(env.get("ENV:PATH"), None);
    assert_eq!(env.get("OTHER:HOME"), None);
    let mut ctx: EngineCtx<Provider> = EngineCtx::new().with_env(vec![String::from("A")], vec![String::from("1")]);
    assert_eq!(ctx.fill("ENV:A"), "1");
    assert_eq!(ctx.replace_all("x%{ENV:A}y"), "x%{ENV:A}y");
}

#[test]
fn date_provider_fields() {
    let mut d = DateCtx::from_parts("2024", "01", "02", "03", "04", "05", "Tuesday");
    assert_eq!(d.fill("TIME"), Some(String::from("2024-01-02 03:04:05")));
    assert_eq!(d.fill("TIME_WDAY"), Some(String::from("Tuesday")));
    assert_eq!(d.fill("TIME_FOO"), None);
    let now = DateCtx::new();
    let year = now.get("TIME_YEAR").unwrap();
    assert_eq!(year.len(), 4);
    assert!(year.chars().all(|c| c.is_ascii_digit()));
    assert_eq!(now.get("TIME").unwrap().len(), 19);
    let mut ctx: EngineCtx<Provider> = EngineCtx::new().with_time();
    assert_eq!(ctx.fill("TIME_YEAR").len(), 4);
}

#[test]
fn server_and_request_addresses() {
    let srv = ServerCtx::default()
        .server_name("named")
        .server_addr("10.0.0.1:80", "10.0.0.1", 80);
    assert_eq!(srv.get("SERVER_NAME"), Some(String::from("named")));
    assert_eq!(srv.get("SERVER_PORT"), Some(String::from("80")));
    assert_eq!(srv.get("DOCUMENT_ROOT"), Some(String::new()));
    let srv = ServerCtx::default().maybe_server_addr(Some(("[::1]:8443", "::1", 8443)));
    assert_eq!(srv.get("SERVER_NAME"), Some(String::from("::1")));
    assert_eq!(srv.get("SERVER_ADDR"), Some(String::from("[::1]:8443")));
    let req = RequestCtx::default().maybe_remote_addr(Some(("1.2.3.4:5", "1.2.3.4", 5)));
    assert_eq!(req.get("REMOTE_HOST"), Some(String::from("1.2.3.4")));
    assert_eq!(req.get("REMOTE_PORT"), Some(String::from("5")));
    let req = RequestCtx::default().maybe_remote_addr(None);
    assert_eq!(req.get("REMOTE_ADDR"), Some(String::new()));
}

#[test]
fn query_helpers() {
    assert_eq!(split_query("/a?b=c?d"), (String::from("/a"), String::from("b=c?d")));
    assert_eq!(split_query("/a"), (String::from("/a"), String::new()));
    assert_eq!(join_query(String::from("/a"), "x=1"), "/a?x=1");
    assert_eq!(join_query(String::from("/a?y=2"), "x=1"), "/a?y=2&x=1");
    assert_eq!(join_query(String::from("/a"), ""), "/a");
}

#[test]
fn state_parsing() {
    assert_eq!(State::from_str("ON").unwrap(), State::On);
    assert_eq!(State::from_str(" off ").unwrap(), State::Off);
    assert!(State::from_str("maybe").is_err());
}

#[test]
fn text_helpers() {
    assert_eq!(percent_encode("a b/c"), "a%20b%2Fc");
    assert_eq!(percent_encode("ü"), "%C3%BC");
    assert_eq!(Rule::from_str("a b [LaSt]").unwrap().shift(), Some(RuleShift::Last));
    assert!(Compare::GreaterThan.compare("10", "9"));
    assert!(!Compare::Equal.compare("1", "x"));
    assert_eq!(decimal_string(0), "0");
    assert_eq!(decimal_string(65535), "65535");
    let chars = |s: &str| -> Vec<char> { s.chars().collect() };
    assert_eq!(parse_i32(&chars("-2147483648")), Some(i32::MIN));
    assert_eq!(parse_i32(&chars("+12")), Some(12));
    assert_eq!(parse_i32(&chars("12a")), None);
    assert_eq!(parse_i32(&chars("-")), None);
    let t = tokenize(&chars(r#"  a 'b c' "d\"e"  f"#)).unwrap();
    assert_eq!(t, vec!["a", "b c", r#"d\"e"#, "f"]);
    assert!(tokenize(&chars("'open")).is_err());
}

#[test]
fn headers_and_upstream_decisions() {
    let mut conf = sample_configuration();
    let hubs = conf.hubs.as_mut().unwrap();
    hubs._static.as_mut().unwrap().remote_path = Some(String::from("/static"));
    hubs.configuration = Some(ConfigurationHubConfiguration {
        remote_path: Some(String::from("/conf")),
        cache: None,
        headers: None,
        providers: None,
    });
    hubs.upstream = Some(UpstreamConfiguration {
        target: Some(String::from("http://backend")),
        remote_path: Some(String::from("/api")),
    });
    let adapter = HttpAdapter::new(&conf);
    assert_eq!(adapter.extra_headers("/conf"), ExtraHeaders::Configuration);
    assert_eq!(adapter.extra_headers("/static/a.css"), ExtraHeaders::Static);
    assert_eq!(adapter.extra_headers("/other"), ExtraHeaders::Neither);
    assert_eq!(adapter.env_remote_path(), "/conf");
    assert_eq!(adapter.env_tree_prefix(), "STHUB____");
    assert_eq!(
        adapter.upstream_url("/api/users", "/api/users?x=1"),
        Some(String::from("http://backend/users?x=1"))
    );
    assert_eq!(adapter.upstream_url("/api", "/api"), Some(String::from("http://backend/")));
    assert_eq!(adapter.upstream_url("/apix/users", "/apix/users"), None);
    assert_eq!(adapter.upstream_url("/other", "/other"), None);
    let plain = sample_configuration();
    let adapter = HttpAdapter::new(&plain);
    assert_eq!(adapter.upstream_url("/api/users", "/api/users"), None);
    assert_eq!(adapter.extra_headers("/env"), ExtraHeaders::Configuration);
    assert_eq!(adapter.extra_headers("/anything"), ExtraHeaders::Static);
}

#[test]
fn blank_headers_are_refused() {
    assert!(header_is_valid("X-A", "b"));
    assert!(!header_is_valid("  ", "b"));
    assert!(!header_is_valid("X-A", "\t"));
}

#[test]
fn references_are_replaced_once_and_unicode_names_count() {
    let mut ctx: EngineCtx<Provider> = EngineCtx::default()
        .with_ctx(Provider::Request(RequestCtx::default().request_uri("%{SERVER_ADMIN}")))
        .with_ctx(Provider::Server(ServerCtx::default().server_admin("root")));
    assert_eq!(ctx.replace_all("%{REQUEST_URI}|%{SERVER_ADMIN}"), "%{SERVER_ADMIN}|root");
    assert_eq!(ctx.replace_all("a%{ÄÖ_1}b%{é-}"), "ab%{é-}");
}

#[test]
fn push_ctx_chains_providers_in_order() {
    let mut ctx: EngineCtx<Provider> = EngineCtx::new();
    ctx.push_ctx(Provider::Request(RequestCtx::default().request_uri("/a")))
        .push_ctx(Provider::Request(RequestCtx::default().request_uri("/b")));
    assert_eq!(ctx.fill("REQUEST_URI"), "/a");
    let mut ctx = EngineCtx::default().with_ctx(RequestCtx::default().request_uri("/x"));
    assert_eq!(ctx.fill("REQUEST_URI"), "/x");
}
