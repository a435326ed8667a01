//! The configuration of the server around the engine, and the settings taken from it.
use vstd::prelude::*;

use std::collections::HashMap;

use crate::error::ExpressionError;
use crate::envtree::{convert_objects_to_arrays, insert_nested, split_name, EnvTree};
use crate::text::chars_of;
use crate::Engine;

verus! {

/// The whole configuration.
#[derive(Debug, Clone)]
pub struct Configuration {
    pub network: Option<NetworkConfiguration>,
    pub global: Option<GlobalConfiguration>,
    pub hubs: Option<ConfigurationHubs>,
}

/// The hubs that the server offers.
#[derive(Debug, Clone)]
pub struct ConfigurationHubs {
    pub _static: Option<StaticHubConfiguration>,
    pub configuration: Option<ConfigurationHubConfiguration>,
    pub upstream: Option<UpstreamConfiguration>,
}

/// The hub that serves configuration.
#[derive(Debug, Clone)]
pub struct ConfigurationHubConfiguration {
    pub remote_path: Option<String>,
    pub cache: Option<bool>,
    pub headers: Option<HashMap<String, String>>,
    pub providers: Option<ConfigurationHubProviders>,
}

/// Settings for every response.
#[derive(Debug, Clone)]
pub struct GlobalConfiguration {
    pub headers: Option<HashMap<String, String>>,
}

/// Where the configuration hub takes its values from.
#[derive(Debug, Clone)]
pub struct ConfigurationHubProviders {
    pub env: Option<EnvConfigurationHubProvider>,
    pub dotenv: Option<DotenvConfigurationProvider>,
}

/// Environment variables as a source of configuration.
#[derive(Debug, Clone)]
pub struct EnvConfigurationHubProvider {
    pub prefix: Option<String>,
}

/// A dotenv file as a source of configuration.
#[derive(Debug, Clone)]
pub struct DotenvConfigurationProvider {
    pub hotreload: Option<bool>,
}

/// The hub that serves static files, with the rewrite rules applied to its requests.
#[derive(Debug, Clone)]
pub struct StaticHubConfiguration {
    pub remote_path: Option<String>,
    pub path: Option<String>,
    pub rewrite_rules: Option<String>,
    pub headers: Option<HashMap<String, String>>,
}

/// The upstream that requests are passed to.
#[derive(Debug, Clone)]
pub struct UpstreamConfiguration {
    pub target: Option<String>,
    pub remote_path: Option<String>,
}

/// Where the server listens.
#[derive(Debug, Clone)]
pub struct NetworkConfiguration {
    pub port: Option<u16>,
    pub host: Option<String>,
}

/// The command line of the server.
#[derive(Debug, Clone)]
pub struct Cli {
    pub configuration_path: Option<String>,
}

impl Cli {
    /// The configuration file to read: `conf.yaml` unless one is given.
    pub fn configuration_file(&self) -> (r: String)
        ensures
            r@ == or_default(opt_text(self.configuration_path), "conf.yaml"@),
    {
        text_or(&self.configuration_path, "conf.yaml")
    }
}

/// The port the server listens on where none is configured.
pub const DEFAULT_PORT: u16 = 8080;

/// The settings of the server, read from a configuration.
pub struct HttpAdapter<'a> {
    configuration: &'a Configuration,
}

/// Which configured header set, besides the global one, applies to a response.
#[derive(Clone, Copy, Debug, PartialEq, Eq, Structural)]
pub enum ExtraHeaders {
    Configuration,
    Static,
    Neither,
}

/// `s` without its leading `/` characters.
pub open spec fn strip_slashes(s: Seq<char>) -> Seq<char>
    decreases s.len(),
{
    if s.len() > 0 && s[0] == '/' {
        strip_slashes(s.drop_first())
    } else {
        s
    }
}

/// The first segment of a path: what stands between its first and second `/`.
pub open spec fn first_segment(path: Seq<char>) -> Seq<char> {
    let parts = crate::text::split_spec(path, '/');
    if parts.len() > 1 {
        parts[1]
    } else {
        Seq::empty()
    }
}

/// Where a request for `path`, with full URI `uri`, goes upstream: where the first
/// segment of the path is the mount point `mount` (leading slashes aside), the URI
/// without the mount prefix (`/` where nothing is left) is appended to `target`.
pub open spec fn upstream_of(target: Seq<char>, mount: Seq<char>, path: Seq<char>, uri: Seq<char>) -> Option<
    Seq<char>,
> {
    if first_segment(path) != strip_slashes(mount) {
        None
    } else {
        let rest = if crate::text::starts_with(uri, mount) {
            let stripped = uri.subrange(mount.len() as int, uri.len() as int);
            if stripped.len() == 0 {
                seq!['/']
            } else {
                stripped
            }
        } else {
            uri
        };
        if rest.len() > 0 && rest[0] == '/' {
            Some(target + rest)
        } else {
            Some(target + seq!['/'] + rest)
        }
    }
}

fn strip_slashes_exec(s: &Vec<char>) -> (r: Vec<char>)
    ensures
        r@ == strip_slashes(s@),
{
    let mut k: usize = 0;
    proof {
        assert(s@.subrange(0, s@.len() as int) =~= s@);
    }
    while k < s.len() && s[k] == '/'
        invariant
            k <= s@.len(),
            strip_slashes(s@) == strip_slashes(s@.subrange(k as int, s@.len() as int)),
        decreases s@.len() - k,
    {
        proof {
            assert(s@.subrange(k as int, s@.len() as int).drop_first() =~= s@.subrange(k + 1, s@.len() as int));
        }
        k = k + 1;
    }
    proof {
        assert(s@.subrange(0, s@.len() as int) =~= s@);
    }
    let r = crate::text::sub_chars(s, k, s.len());
    r
}

/// Whether a header may be sent: neither its name nor its value is blank.
pub fn header_is_valid(name: &str, value: &str) -> (r: bool)
    ensures
        r == (crate::text::trimmed(name@).len() > 0 && crate::text::trimmed(value@).len() > 0),
{
    crate::text::trim(&chars_of(name)).len() > 0 && crate::text::trim(&chars_of(value)).len() > 0
}

/// The value of an optional text, or `default`.
fn text_or(o: &Option<String>, default: &str) -> (r: String)
    ensures
        o is Some ==> r@ == o->0@,
        o is None ==> r@ == default@,
{
    match o {
        Some(s) => s.clone(),
        None => String::from_str(default),
    }
}

/// The view of an optional text.
pub open spec fn opt_text(o: Option<String>) -> Option<Seq<char>> {
    match o {
        Some(t) => Some(t@),
        None => None,
    }
}

/// A configured text of the static hub, picked by `f`.
pub open spec fn hub_text(c: &Configuration, f: spec_fn(StaticHubConfiguration) -> Option<String>) -> Option<Seq<char>> {
    match static_hub(c) {
        Some(s) => opt_text(f(s)),
        None => None,
    }
}

/// The configured host.
pub open spec fn configured_host(c: &Configuration) -> Option<Seq<char>> {
    match c.network {
        Some(n) => opt_text(n.host),
        None => None,
    }
}

/// The configured port.
pub open spec fn configured_port(c: &Configuration) -> Option<u16> {
    match c.network {
        Some(n) => n.port,
        None => None,
    }
}

/// The value of a setting, or its default.
pub open spec fn or_default(o: Option<Seq<char>>, d: Seq<char>) -> Seq<char> {
    match o {
        Some(t) => t,
        None => d,
    }
}

/// The static hub of a configuration.
pub open spec fn static_hub(c: &Configuration) -> Option<StaticHubConfiguration> {
    match c.hubs {
        Some(h) => h._static,
        None => None,
    }
}

impl<'a> HttpAdapter<'a> {
    /// The configuration read.
    pub closed spec fn config(&self) -> &'a Configuration {
        self.configuration
    }

    /// Settings read from `configuration`.
    pub fn new(configuration: &'a Configuration) -> (r: Self)
        ensures
            r.config() == configuration,
    {
        HttpAdapter { configuration }
    }

    fn static_hub(&self) -> (r: Option<&StaticHubConfiguration>)
        ensures
            r is Some <==> static_hub(self.config()) is Some,
            r is Some ==> *r->0 == static_hub(self.config())->0,
    {
        match &self.configuration.hubs {
            Some(h) => match &h._static {
                Some(s) => Some(s),
                None => None,
            },
            None => None,
        }
    }

    /// The rewrite rules of the static hub, if any.
    pub fn rewrite_rules(&self) -> (r: Option<String>)
        ensures
            opt_text(r) == hub_text(self.config(), |s: StaticHubConfiguration| s.rewrite_rules),
    {
        match self.static_hub() {
            Some(s) => match &s.rewrite_rules {
                Some(t) => Some(t.clone()),
                None => None,
            },
            None => None,
        }
    }

    /// The host to listen on: `localhost` unless configured.
    pub fn host(&self) -> (r: String)
        ensures
            r@ == or_default(configured_host(self.config()), "localhost"@),
    {
        match &self.configuration.network {
            Some(n) => text_or(&n.host, "localhost"),
            None => String::from_str("localhost"),
        }
    }

    /// The port to listen on: [`DEFAULT_PORT`] unless configured.
    pub fn port(&self) -> (r: u16)
        ensures
            r == match configured_port(self.config()) {
                Some(p) => p,
                None => DEFAULT_PORT,
            },
    {
        match &self.configuration.network {
            Some(n) => match n.port {
                Some(p) => p,
                None => DEFAULT_PORT,
            },
            None => DEFAULT_PORT,
        }
    }

    /// The directory the static hub serves: `/var/www/html/` unless configured.
    pub fn static_path(&self) -> (r: String)
        ensures
            r@ == or_default(hub_text(self.config(), |s: StaticHubConfiguration| s.path), "/var/www/html/"@),
    {
        match self.static_hub() {
            Some(s) => text_or(&s.path, "/var/www/html/"),
            None => String::from_str("/var/www/html/"),
        }
    }

    /// The path the static hub is mounted at: `/` unless configured.
    pub fn remote_path(&self) -> (r: String)
        ensures
            r@ == or_default(hub_text(self.config(), |s: StaticHubConfiguration| s.remote_path), "/"@),
    {
        match self.static_hub() {
            Some(s) => text_or(&s.remote_path, "/"),
            None => String::from_str("/"),
        }
    }

    /// The configured prefix of the environment variables that the configuration hub
    /// serves.
    pub closed spec fn env_prefix_spec(&self) -> Option<Seq<char>> {
        match self.configuration.hubs {
            Some(h) => match h.configuration {
                Some(c) => match c.providers {
                    Some(p) => match p.env {
                        Some(e) => opt_text(e.prefix),
                        None => None,
                    },
                    None => None,
                },
                None => None,
            },
            None => None,
        }
    }

    /// The configured path of the configuration hub.
    pub closed spec fn env_path_spec(&self) -> Option<Seq<char>> {
        match self.configuration.hubs {
            Some(h) => match h.configuration {
                Some(c) => opt_text(c.remote_path),
                None => None,
            },
            None => None,
        }
    }

    /// The path at which the configuration hub serves the environment tree: `/env`
    /// unless configured.
    pub fn env_remote_path(&self) -> (r: String)
        ensures
            r@ == or_default(self.env_path_spec(), "/env"@),
    {
        match &self.configuration.hubs {
            Some(h) => match &h.configuration {
                Some(c) => text_or(&c.remote_path, "/env"),
                None => String::from_str("/env"),
            },
            None => String::from_str("/env"),
        }
    }

    /// The prefix of the variables in the environment tree: the configured prefix, or
    /// `STHUB__`, followed by the separator `__`.
    pub fn env_tree_prefix(&self) -> (r: String)
        ensures
            r@ == or_default(self.env_prefix_spec(), "STHUB__"@) + separator(),
    {
        let base = match &self.configuration.hubs {
            Some(h) => match &h.configuration {
                Some(c) => match &c.providers {
                    Some(p) => match &p.env {
                        Some(e) => text_or(&e.prefix, "STHUB__"),
                        None => String::from_str("STHUB__"),
                    },
                    None => String::from_str("STHUB__"),
                },
                None => String::from_str("STHUB__"),
            },
            None => String::from_str("STHUB__"),
        };
        let mut out = chars_of(base.as_str());
        out.push('_');
        out.push('_');
        proof {
            assert(out@ =~= base@ + separator());
        }
        crate::text::string_of(out.as_slice())
    }

    /// The configured mount point of the static hub.
    pub closed spec fn static_path_spec(&self) -> Option<Seq<char>> {
        hub_text(self.configuration, |s: StaticHubConfiguration| s.remote_path)
    }

    /// Which header set, besides the global one, applies to a response for `path`:
    /// the configuration hub's at its path, else the static hub's under its mount
    /// point (`/` unless configured).
    pub fn extra_headers(&self, path: &str) -> (r: ExtraHeaders)
        ensures
            path@ == or_default(self.env_path_spec(), "/env"@) ==> r == ExtraHeaders::Configuration,
            path@ != or_default(self.env_path_spec(), "/env"@) && crate::text::starts_with(
                path@,
                or_default(self.static_path_spec(), "/"@),
            ) ==> r == ExtraHeaders::Static,
            path@ != or_default(self.env_path_spec(), "/env"@) && !crate::text::starts_with(
                path@,
                or_default(self.static_path_spec(), "/"@),
            ) ==> r == ExtraHeaders::Neither,
    {
        let p = chars_of(path);
        let conf = chars_of(self.env_remote_path().as_str());
        if crate::text::chars_eq_chars(&p, &conf) {
            return ExtraHeaders::Configuration;
        }
        let mount = chars_of(self.remote_path().as_str());
        if crate::text::starts_with_exec(&p, &mount) {
            ExtraHeaders::Static
        } else {
            ExtraHeaders::Neither
        }
    }

    /// The configured upstream: its target and mount point, where both are set.
    pub closed spec fn upstream_spec(&self) -> Option<(Seq<char>, Seq<char>)> {
        match self.configuration.hubs {
            Some(h) => match h.upstream {
                Some(u) => match (u.target, u.remote_path) {
                    (Some(t), Some(m)) => Some((t@, m@)),
                    _ => None,
                },
                None => None,
            },
            None => None,
        }
    }

    /// Where a request for `path`, with full URI `uri`, is passed upstream; `None`
    /// where it is served here.
    pub fn upstream_url(&self, path: &str, uri: &str) -> (r: Option<String>)
        ensures
            self.upstream_spec() is None ==> r is None,
            self.upstream_spec() matches Some((t, m)) ==> opt_text(r) == upstream_of(t, m, path@, uri@),
    {
        let (target, mount) = match &self.configuration.hubs {
            Some(h) => match &h.upstream {
                Some(u) => match (&u.target, &u.remote_path) {
                    (Some(t), Some(m)) => (t, m),
                    _ => return None,
                },
                None => return None,
            },
            None => return None,
        };
        let p = chars_of(path);
        let parts = crate::text::split_chars(&p, '/');
        let first: Vec<char> = if parts.len() > 1 {
            crate::text::sub_chars(&parts[1], 0, parts[1].len())
        } else {
            Vec::new()
        };
        proof {
            if parts@.len() > 1 {
                assert(parts@[1]@ == crate::text::split_spec(p@, '/')[1]);
                assert(first@ =~= parts@[1]@);
            } else {
                assert(first@ =~= Seq::<char>::empty());
            }
        }
        let mc = chars_of(mount.as_str());
        let m = strip_slashes_exec(&mc);
        if !crate::text::chars_eq_chars(&first, &m) {
            return None;
        }
        let u = chars_of(uri);
        let rest: Vec<char> = if crate::text::starts_with_exec(&u, &mc) {
            let stripped = crate::text::sub_chars(&u, mc.len(), u.len());
            if stripped.len() == 0 {
                let mut slash: Vec<char> = Vec::new();
                slash.push('/');
                slash
            } else {
                stripped
            }
        } else {
            u
        };
        let mut out = chars_of(target.as_str());
        if !(rest.len() > 0 && rest[0] == '/') {
            out.push('/');
        }
        crate::text::extend_chars(&mut out, &rest);
        proof {
            let spec_rest = if crate::text::starts_with(uri@, mc@) {
                let stripped = uri@.subrange(mc@.len() as int, uri@.len() as int);
                if stripped.len() == 0 {
                    seq!['/']
                } else {
                    stripped
                }
            } else {
                uri@
            };
            assert(rest@ =~= spec_rest);
        }
        Some(crate::text::string_of(out.as_slice()))
    }

    /// The document served for a directory.
    pub fn index_document(&self) -> (r: String)
        ensures
            r@ == "index.html"@,
    {
        String::from_str("index.html")
    }

    /// The engine for the static hub's rewrite rules; without rules it rewrites
    /// nothing.
    pub fn engine(&self) -> (r: Result<Engine, ExpressionError>)
        ensures
            hub_text(self.config(), |s: StaticHubConfiguration| s.rewrite_rules) is None ==> r is Ok
                && r->Ok_0.group_seq().len() == 0,
            hub_text(self.config(), |s: StaticHubConfiguration| s.rewrite_rules) is Some ==> (r is Ok
                <==> crate::expr::text_ok(
                hub_text(self.config(), |s: StaticHubConfiguration| s.rewrite_rules)->0,
            )),
            r is Ok && hub_text(self.config(), |s: StaticHubConfiguration| s.rewrite_rules) is Some
                ==> r->Ok_0.group_seq().len() == crate::expr::groups_of_text(
                hub_text(self.config(), |s: StaticHubConfiguration| s.rewrite_rules)->0,
            ).len(),
    {
        let mut engine = Engine::new();
        match self.rewrite_rules() {
            Some(r) => {
                engine.add_rules(r.as_str())?;
            },
            None => {},
        }
        Ok(engine)
    }
}

/// The application: its configuration, from which the server is set up.
pub struct Kernel {
    configuration: Configuration,
}

impl Kernel {
    /// The configuration held.
    pub closed spec fn config(&self) -> Configuration {
        self.configuration
    }

    /// An application with the given configuration.
    pub fn new(configuration: Configuration) -> (r: Self)
        ensures
            r.config() == configuration,
    {
        Kernel { configuration }
    }

    /// The settings of the server for this configuration.
    pub fn setup_http_adapter(&self) -> (r: HttpAdapter<'_>)
        ensures
            *r.config() == self.config(),
    {
        HttpAdapter::new(&self.configuration)
    }
}

/// Builds a tree of settings from environment variables that share a prefix, such
/// as `APP__HTTP__PORT`.
pub struct JsonEnvironmentVarsTree {
    prefix: String,
}

/// The separator between the parts of a variable name.
pub open spec fn separator() -> Seq<char> {
    seq!['_', '_']
}

impl JsonEnvironmentVarsTree {
    /// The prefix of the variables read.
    pub closed spec fn prefix_spec(&self) -> Seq<char> {
        self.prefix@
    }

    /// A tree of the variables whose names start with `prefix`, which must end with
    /// the separator `__`.
    pub fn new(prefix: &str) -> (r: Self)
        requires
            crate::text::ends_with(prefix@, separator()),
        ensures
            r.prefix_spec() == prefix@,
    {
        JsonEnvironmentVarsTree { prefix: String::from_str(prefix) }
    }

    /// Whether `prefix` may start a tree: it ends with the separator `__`.
    pub fn valid_prefix(prefix: &str) -> (r: bool)
        ensures
            r == crate::text::ends_with(prefix@, separator()),
    {
        let mut sep: Vec<char> = Vec::new();
        sep.push('_');
        sep.push('_');
        proof {
            assert(sep@ =~= separator());
        }
        crate::text::ends_with_exec(&chars_of(prefix), &sep)
    }

    /// Builds the tree of the variables `names[i] = values[i]` whose names start with
    /// the prefix: the rest of each name, split at `__`, is the path of its value, and
    /// objects whose keys are the positions `0..n` become arrays.
    pub fn build(&self, names: &Vec<String>, values: &Vec<String>) -> (r: EnvTree)
        requires
            names@.len() == values@.len(),
        ensures
            r is Object || r is Array,
            (forall|i: int| 0 <= i < names@.len() ==> !crate::text::starts_with(
                #[trigger] names@[i]@,
                self.prefix_spec(),
            )) ==> r is Object && r->Object_0@.len() == 0,
    {
        let prefix = chars_of(self.prefix.as_str());
        let mut keys: Vec<String> = Vec::new();
        let mut vals: Vec<EnvTree> = Vec::new();
        let mut depth: usize = 1;
        let mut i: usize = 0;
        while i < names.len()
            invariant
                names@.len() == values@.len(),
                i <= names@.len(),
                prefix@ == self.prefix_spec(),
                keys@.len() == vals@.len(),
                crate::envtree::unique_keys(keys@),
                depth >= 1,
                (forall|j: int| 0 <= j < i ==> !crate::text::starts_with(
                    #[trigger] names@[j]@,
                    self.prefix_spec(),
                )) ==> keys@.len() == 0,
            decreases names@.len() - i,
        {
            let name = chars_of(names[i].as_str());
            if crate::text::starts_with_exec(&name, &prefix) {
                let rest = crate::text::sub_chars(&name, prefix.len(), name.len());
                let parts = split_name(&rest);
                if parts.len() < usize::MAX && parts.len() + 1 > depth {
                    depth = parts.len() + 1;
                }
                insert_nested(&mut keys, &mut vals, &parts, 0, values[i].clone());
            }
            i = i + 1;
        }
        proof {
            if keys@.len() == 0 {
                assert(!crate::envtree::array_like(keys@));
            }
        }
        let root = EnvTree::Object(keys, vals);
        convert_objects_to_arrays(root, depth)
    }

    /// The prefix of the variables read.
    pub fn prefix(&self) -> (r: &str)
        ensures
            r@ == self.prefix_spec(),
    {
        self.prefix.as_str()
    }
}

} // verus!
