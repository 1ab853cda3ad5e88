//! The configuration of a client: its nodes, quorum, timeouts, MQTT broker options and
//! network information, built step by step.

use vstd::prelude::*;

use crate::bech32_address::Hrp;
use crate::mqtt::BrokerOptions;
use crate::text::same_text;
use crate::time::TimeSpan;

verus! {

/// What `url::Url::parse` makes of `s`: the serialization of the URL and its scheme, or
/// nothing where the parser refuses `s`.
pub uninterp spec fn url_parse(s: Seq<char>) -> Option<(Seq<char>, Seq<char>)>;

/// Parses `s` with `url::Url::parse`.
/// Trusted: the result is the named parse of `s`, taken by `Url::as_str` and
/// `Url::scheme`.
#[verifier::external_body]
fn parse_url(s: &str) -> (r: Option<(String, String)>)
    ensures
        match r {
            Some((u, scheme)) => url_parse(s@) == Some((u@, scheme@)),
            None => url_parse(s@) is None,
        },
{
    match url::Url::parse(s) {
        Ok(u) => Some((u.as_str().to_string(), u.scheme().to_string())),
        Err(_) => None,
    }
}

/// The errors of configuring a client.
#[derive(Debug)]
pub enum ClientError {
    /// The text is not a URL.
    UrlParse,
    /// The URL has a scheme other than `http` and `https`.
    UrlValidation { scheme: String },
}

/// The value of a client error.
pub enum ClientErrorV {
    UrlParse,
    UrlValidation { scheme: Seq<char> },
}

impl View for ClientError {
    type V = ClientErrorV;

    open spec fn view(&self) -> ClientErrorV {
        match self {
            ClientError::UrlParse => ClientErrorV::UrlParse,
            ClientError::UrlValidation { scheme } => ClientErrorV::UrlValidation { scheme: scheme@ },
        }
    }
}

/// The URL of a node: the serialization of `s` where it parses with the `http` or
/// `https` scheme.
pub open spec fn checked_url(s: Seq<char>) -> Result<Seq<char>, ClientErrorV> {
    match url_parse(s) {
        None => Err(ClientErrorV::UrlParse),
        Some((u, scheme)) => if scheme == "http"@ || scheme == "https"@ {
            Ok(u)
        } else {
            Err(ClientErrorV::UrlValidation { scheme })
        },
    }
}

/// The result of a check, by value.
pub open spec fn url_result_view(r: Result<String, ClientError>) -> Result<Seq<char>, ClientErrorV> {
    match r {
        Ok(u) => Ok(u@),
        Err(e) => Err(e@),
    }
}

/// Parses a node URL and accepts it only with the `http` or `https` scheme.
pub fn validate_url(url: &str) -> (r: Result<String, ClientError>)
    ensures
        url_result_view(r) == checked_url(url@),
{
    match parse_url(url) {
        None => Err(ClientError::UrlParse),
        Some((u, scheme)) => {
            let http = same_text(scheme.as_str(), "http");
            let https = same_text(scheme.as_str(), "https");
            if http || https {
                Ok(u)
            } else {
                Err(ClientError::UrlValidation { scheme })
            }
        },
    }
}

/// The authentication towards a node.
#[derive(Debug)]
pub struct NodeAuth {
    /// A JSON web token.
    pub jwt: Option<String>,
    /// A user name and password for basic authentication.
    pub basic_auth_name_pwd: Option<(String, String)>,
}

/// The value of a node authentication.
pub struct NodeAuthV {
    pub jwt: Option<Seq<char>>,
    pub basic_auth_name_pwd: Option<(Seq<char>, Seq<char>)>,
}

impl View for NodeAuth {
    type V = NodeAuthV;

    open spec fn view(&self) -> NodeAuthV {
        NodeAuthV {
            jwt: match self.jwt {
                Some(j) => Some(j@),
                None => None,
            },
            basic_auth_name_pwd: match self.basic_auth_name_pwd {
                Some((n, p)) => Some((n@, p@)),
                None => None,
            },
        }
    }
}

/// A node: its URL, how to authenticate towards it, and whether it is disabled.
#[derive(Debug)]
pub struct Node {
    pub url: String,
    pub auth: Option<NodeAuth>,
    pub disabled: bool,
}

/// The value of a node.
pub struct NodeV {
    pub url: Seq<char>,
    pub auth: Option<NodeAuthV>,
    pub disabled: bool,
}

impl View for Node {
    type V = NodeV;

    open spec fn view(&self) -> NodeV {
        NodeV {
            url: self.url@,
            auth: match self.auth {
                Some(a) => Some(a@),
                None => None,
            },
            disabled: self.disabled,
        }
    }
}

/// The enabled node at `url` with the authentication `auth`.
pub open spec fn node_at(url: Seq<char>, auth: Option<NodeAuthV>) -> NodeV {
    NodeV { url, auth, disabled: false }
}

fn same_opt_text(a: &Option<String>, b: &Option<String>) -> (r: bool)
    ensures
        r == (match (a, b) {
            (Some(x), Some(y)) => x@ == y@,
            (None, None) => true,
            _ => false,
        }),
{
    match (a, b) {
        (Some(x), Some(y)) => same_text(x.as_str(), y.as_str()),
        (None, None) => true,
        _ => false,
    }
}

fn same_auth(a: &Option<NodeAuth>, b: &Option<NodeAuth>) -> (r: bool)
    ensures
        r == (match (a, b) {
            (Some(x), Some(y)) => x@ == y@,
            (None, None) => true,
            _ => false,
        }),
{
    match (a, b) {
        (Some(x), Some(y)) => {
            let jwt = same_opt_text(&x.jwt, &y.jwt);
            let basic = match (&x.basic_auth_name_pwd, &y.basic_auth_name_pwd) {
                (Some((n1, p1)), Some((n2, p2))) => same_text(n1.as_str(), n2.as_str())
                    && same_text(p1.as_str(), p2.as_str()),
                (None, None) => true,
                _ => false,
            };
            jwt && basic
        },
        (None, None) => true,
        _ => false,
    }
}

/// Whether both nodes are equal.
fn same_node(a: &Node, b: &Node) -> (r: bool)
    ensures
        r == (a@ == b@),
{
    same_text(a.url.as_str(), b.url.as_str()) && same_auth(&a.auth, &b.auth) && a.disabled
        == b.disabled
}

/// The values of a list of nodes.
pub open spec fn nodes_view(s: Seq<Node>) -> Seq<NodeV> {
    s.map_values(|n: Node| n@)
}

/// Whether no node occurs twice.
pub open spec fn no_repeated_node(s: Seq<NodeV>) -> bool {
    forall|i: int, j: int| 0 <= i < j < s.len() ==> s[i] != s[j]
}

/// Adds `node` to a list of distinct nodes, unless it is there already.
fn insert_node(nodes: &mut Vec<Node>, node: Node)
    requires
        no_repeated_node(nodes_view(old(nodes)@)),
    ensures
        no_repeated_node(nodes_view(final(nodes)@)),
        nodes_view(final(nodes)@).to_set() == nodes_view(old(nodes)@).to_set().insert(node@),
{
    let ghost s0 = nodes_view(nodes@);
    let mut i: usize = 0;
    while i < nodes.len()
        invariant
            i <= nodes@.len(),
            nodes@ == old(nodes)@,
            s0 == nodes_view(nodes@),
            no_repeated_node(s0),
            forall|j: int| 0 <= j < i ==> s0[j] != node@,
        decreases nodes@.len() - i,
    {
        if same_node(&nodes[i], &node) {
            proof {
                assert(s0[i as int] == node@);
                assert(s0.to_set().insert(node@) =~= s0.to_set());
            }
            return;
        }
        i = i + 1;
    }
    let ghost nv = node@;
    nodes.push(node);
    proof {
        let t = s0.push(nv);
        assert(nodes_view(nodes@) =~= t);
        assert forall|a: NodeV| t.to_set().contains(a) == s0.to_set().insert(nv).contains(a) by {
            if s0.contains(a) {
                let k = choose|k: int| 0 <= k < s0.len() && s0[k] == a;
                assert(t[k] == a);
            }
            if a == nv {
                assert(t[s0.len() as int] == a);
            }
            if t.contains(a) {
                let k = choose|k: int| 0 <= k < t.len() && t[k] == a;
                if k < s0.len() {
                    assert(s0[k] == a);
                }
            }
        }
        assert(t.to_set() =~= s0.to_set().insert(nv));
    }
}

/// The default interval of node synchronisation: sixty seconds.
pub open spec fn default_node_sync_interval() -> TimeSpan {
    TimeSpan { secs: 60, nanos: 0 }
}

/// The default timeout of API requests: fifteen seconds.
pub open spec fn default_api_timeout_spec() -> TimeSpan {
    TimeSpan { secs: 15, nanos: 0 }
}

/// The default timeout of API requests, fifteen seconds.
pub fn default_api_timeout() -> (r: TimeSpan)
    ensures
        r == default_api_timeout_spec(),
{
    TimeSpan::from_secs(15)
}

/// The default minimum number of nodes asked for a quorum.
pub const DEFAULT_MIN_QUORUM_SIZE: usize = 3;

/// The default share of nodes, in percent, that must agree for a quorum.
pub const DEFAULT_QUORUM_THRESHOLD: usize = 66;

/// The default `User-Agent` of requests: this crate's name and version.
pub open spec fn default_user_agent() -> Seq<char> {
    "iota_client/0.1.0"@
}

/// The configuration of the node manager.
#[derive(Debug)]
pub struct NodeManagerBuilder {
    /// The node to ask first.
    pub primary_node: Option<Node>,
    /// The nodes, each once.
    pub nodes: Vec<Node>,
    /// The permanodes, each once.
    pub permanodes: Vec<Node>,
    /// Whether every node is taken for healthy.
    pub ignore_node_health: bool,
    /// The interval between two synchronisations of the node pool.
    pub node_sync_interval: TimeSpan,
    /// Whether requests ask several nodes and compare the answers.
    pub quorum: bool,
    /// The minimum number of nodes asked for a quorum.
    pub min_quorum_size: usize,
    /// The share of nodes, in percent, that must agree for a quorum.
    pub quorum_threshold: usize,
    /// The `User-Agent` of requests.
    pub user_agent: String,
}

impl NodeManagerBuilder {
    /// Whether no node and no permanode occurs twice.
    pub open spec fn wf(&self) -> bool {
        &&& no_repeated_node(nodes_view(self.nodes@))
        &&& no_repeated_node(nodes_view(self.permanodes@))
    }

    /// The set of nodes.
    pub open spec fn node_set(&self) -> Set<NodeV> {
        nodes_view(self.nodes@).to_set()
    }

    /// The set of permanodes.
    pub open spec fn permanode_set(&self) -> Set<NodeV> {
        nodes_view(self.permanodes@).to_set()
    }

    /// The default configuration: no node, health checked every sixty seconds, no
    /// quorum (at least three nodes and 66 percent where asked for).
    pub fn new() -> (r: NodeManagerBuilder)
        ensures
            r.wf(),
            r.primary_node is None,
            r.nodes@.len() == 0,
            r.permanodes@.len() == 0,
            !r.ignore_node_health,
            r.node_sync_interval == default_node_sync_interval(),
            !r.quorum,
            r.min_quorum_size == DEFAULT_MIN_QUORUM_SIZE,
            r.quorum_threshold == DEFAULT_QUORUM_THRESHOLD,
            r.user_agent@ == default_user_agent(),
    {
        let r = NodeManagerBuilder {
            primary_node: None,
            nodes: Vec::new(),
            permanodes: Vec::new(),
            ignore_node_health: false,
            node_sync_interval: TimeSpan::from_secs(60),
            quorum: false,
            min_quorum_size: DEFAULT_MIN_QUORUM_SIZE,
            quorum_threshold: DEFAULT_QUORUM_THRESHOLD,
            user_agent: String::from_str("iota_client/0.1.0"),
        };
        assert(nodes_view(r.nodes@) =~= Seq::empty());
        assert(nodes_view(r.permanodes@) =~= Seq::empty());
        r
    }
}

/// The protocol parameters that the client keeps of the network.
#[derive(Debug)]
pub struct ProtocolParameters {
    /// The name of the network.
    pub network_name: String,
    /// The human-readable part of the network's addresses.
    pub bech32_hrp: Hrp,
    /// The total supply of base tokens.
    pub token_supply: u64,
}

/// The information that a client keeps about the network.
#[derive(Debug)]
pub struct NetworkInfo {
    /// The protocol parameters, once known.
    pub protocol_parameters: Option<ProtocolParameters>,
    /// The current tangle time, once known.
    pub tangle_time: Option<u64>,
}

impl NetworkInfo {
    /// Nothing known yet.
    pub fn new() -> (r: NetworkInfo)
        ensures
            r.protocol_parameters is None,
            r.tangle_time is None,
    {
        NetworkInfo { protocol_parameters: None, tangle_time: None }
    }

    /// Sets the protocol parameters.
    pub fn with_protocol_parameters(self, protocol_parameters: ProtocolParameters) -> (r: NetworkInfo)
        ensures
            r == (NetworkInfo { protocol_parameters: Some(protocol_parameters), ..self }),
    {
        NetworkInfo { protocol_parameters: Some(protocol_parameters), ..self }
    }

    /// Sets the tangle time.
    pub fn with_tangle_time(self, tangle_time: u64) -> (r: NetworkInfo)
        ensures
            r == (NetworkInfo { tangle_time: Some(tangle_time), ..self }),
    {
        NetworkInfo { tangle_time: Some(tangle_time), ..self }
    }
}

impl Default for NetworkInfo {
    fn default() -> (r: NetworkInfo)
        ensures
            r.protocol_parameters is None,
            r.tangle_time is None,
    {
        NetworkInfo::new()
    }
}

impl Default for ClientBuilder {
    /// The default configuration; see `ClientBuilder::new`.
    fn default() -> (r: ClientBuilder)
        ensures
            r.wf(),
            r.node_manager_builder.primary_node is None,
            r.node_manager_builder.nodes@.len() == 0,
            r.node_manager_builder.permanodes@.len() == 0,
            !r.node_manager_builder.ignore_node_health,
            r.node_manager_builder.node_sync_interval == default_node_sync_interval(),
            !r.node_manager_builder.quorum,
            r.node_manager_builder.min_quorum_size == DEFAULT_MIN_QUORUM_SIZE,
            r.node_manager_builder.quorum_threshold == DEFAULT_QUORUM_THRESHOLD,
            r.node_manager_builder.user_agent@ == default_user_agent(),
            r.broker_options == BrokerOptions::spec_default(),
            r.network_info.protocol_parameters is None,
            r.network_info.tangle_time is None,
            r.api_timeout == default_api_timeout_spec(),
    {
        ClientBuilder::new()
    }
}

/// Builds the configuration of a client, with sensible defaults.
#[derive(Debug)]
pub struct ClientBuilder {
    /// The configuration of the node manager.
    pub node_manager_builder: NodeManagerBuilder,
    /// The options of the MQTT broker.
    pub broker_options: BrokerOptions,
    /// What is known of the network.
    pub network_info: NetworkInfo,
    /// The timeout of API requests.
    pub api_timeout: TimeSpan,
}

impl ClientBuilder {
    /// Whether no node and no permanode occurs twice.
    pub open spec fn wf(&self) -> bool {
        self.node_manager_builder.wf()
    }

    /// Whether `r` is `self` with another node manager configuration.
    pub open spec fn same_but_nodes(&self, r: &ClientBuilder) -> bool {
        &&& r.broker_options == self.broker_options
        &&& r.network_info == self.network_info
        &&& r.api_timeout == self.api_timeout
    }

    /// Whether the node manager configuration of `r` is that of `self` but for the nodes.
    pub open spec fn same_settings(&self, r: &ClientBuilder) -> bool {
        let a = self.node_manager_builder;
        let b = r.node_manager_builder;
        &&& b.ignore_node_health == a.ignore_node_health
        &&& b.node_sync_interval == a.node_sync_interval
        &&& b.quorum == a.quorum
        &&& b.min_quorum_size == a.min_quorum_size
        &&& b.quorum_threshold == a.quorum_threshold
        &&& b.user_agent == a.user_agent
    }

    /// The default configuration: no node, the default broker options, nothing known
    /// of the network, and a timeout of fifteen seconds.
    pub fn new() -> (r: ClientBuilder)
        ensures
            r.wf(),
            r.node_manager_builder.primary_node is None,
            r.node_manager_builder.nodes@.len() == 0,
            r.node_manager_builder.permanodes@.len() == 0,
            !r.node_manager_builder.ignore_node_health,
            r.node_manager_builder.node_sync_interval == default_node_sync_interval(),
            !r.node_manager_builder.quorum,
            r.node_manager_builder.min_quorum_size == DEFAULT_MIN_QUORUM_SIZE,
            r.node_manager_builder.quorum_threshold == DEFAULT_QUORUM_THRESHOLD,
            r.node_manager_builder.user_agent@ == default_user_agent(),
            r.broker_options == BrokerOptions::spec_default(),
            r.network_info.protocol_parameters is None,
            r.network_info.tangle_time is None,
            r.api_timeout == default_api_timeout_spec(),
    {
        ClientBuilder {
            node_manager_builder: NodeManagerBuilder::new(),
            broker_options: BrokerOptions::new(),
            network_info: NetworkInfo::new(),
            api_timeout: default_api_timeout(),
        }
    }

    /// Adds a node by its URL, which must parse with the `http` or `https` scheme.
    pub fn with_node(self, url: &str) -> (r: Result<ClientBuilder, ClientError>)
        requires
            self.wf(),
        ensures
            match checked_url(url@) {
                Ok(u) => r matches Ok(b) && b.wf() && self.same_but_nodes(&b) && self.same_settings(&b)
                    && b.node_set() == self.node_set().insert(node_at(u, None))
                    && b.permanode_set() == self.permanode_set()
                    && b.node_manager_builder.primary_node == self.node_manager_builder.primary_node,
                Err(e) => r matches Err(x) && x@ == e,
            },
    {
        self.with_node_auth(url, None)
    }

    /// Adds a node by its URL, with optional authentication.
    pub fn with_node_auth(self, url: &str, auth: Option<NodeAuth>) -> (r: Result<
        ClientBuilder,
        ClientError,
    >)
        requires
            self.wf(),
        ensures
            match checked_url(url@) {
                Ok(u) => r matches Ok(b) && b.wf() && self.same_but_nodes(&b) && self.same_settings(&b)
                    && b.node_set() == self.node_set().insert(
                    node_at(
                        u,
                        match auth {
                            Some(a) => Some(a@),
                            None => None,
                        },
                    ),
                ) && b.permanode_set() == self.permanode_set()
                    && b.node_manager_builder.primary_node == self.node_manager_builder.primary_node,
                Err(e) => r matches Err(x) && x@ == e,
            },
    {
        match validate_url(url) {
            Err(e) => Err(e),
            Ok(u) => {
                let mut b = self;
                insert_node(&mut b.node_manager_builder.nodes, Node { url: u, auth, disabled: false });
                Ok(b)
            },
        }
    }

    /// Sets the primary node by its URL, with optional authentication.
    pub fn with_primary_node(self, url: &str, auth: Option<NodeAuth>) -> (r: Result<
        ClientBuilder,
        ClientError,
    >)
        requires
            self.wf(),
        ensures
            match checked_url(url@) {
                Ok(u) => r matches Ok(b) && b.wf() && self.same_but_nodes(&b) && self.same_settings(&b)
                    && b.node_manager_builder.nodes == self.node_manager_builder.nodes
                    && b.node_manager_builder.permanodes == self.node_manager_builder.permanodes
                    && (b.node_manager_builder.primary_node matches Some(p) && p@ == node_at(
                    u,
                    match auth {
                        Some(a) => Some(a@),
                        None => None,
                    },
                )),
                Err(e) => r matches Err(x) && x@ == e,
            },
    {
        match validate_url(url) {
            Err(e) => Err(e),
            Ok(u) => {
                let mut b = self;
                b.node_manager_builder.primary_node = Some(Node { url: u, auth, disabled: false });
                Ok(b)
            },
        }
    }

    /// Adds a permanode by its URL, with optional authentication.
    pub fn with_permanode(self, url: &str, auth: Option<NodeAuth>) -> (r: Result<
        ClientBuilder,
        ClientError,
    >)
        requires
            self.wf(),
        ensures
            match checked_url(url@) {
                Ok(u) => r matches Ok(b) && b.wf() && self.same_but_nodes(&b) && self.same_settings(&b)
                    && b.permanode_set() == self.permanode_set().insert(
                    node_at(
                        u,
                        match auth {
                            Some(a) => Some(a@),
                            None => None,
                        },
                    ),
                ) && b.node_set() == self.node_set()
                    && b.node_manager_builder.primary_node == self.node_manager_builder.primary_node,
                Err(e) => r matches Err(x) && x@ == e,
            },
    {
        match validate_url(url) {
            Err(e) => Err(e),
            Ok(u) => {
                let mut b = self;
                insert_node(
                    &mut b.node_manager_builder.permanodes,
                    Node { url: u, auth, disabled: false },
                );
                Ok(b)
            },
        }
    }

    /// Adds nodes by their URLs, failing on the first URL that does not parse with the
    /// `http` or `https` scheme.
    pub fn with_nodes(self, urls: &[&str]) -> (r: Result<ClientBuilder, ClientError>)
        requires
            self.wf(),
        ensures
            (forall|i: int| 0 <= i < urls@.len() ==> #[trigger] checked_url(urls@[i]@) is Ok)
                ==> (r matches Ok(b) && b.wf() && self.same_but_nodes(&b) && self.same_settings(
                &b,
            ) && b.node_set() == self.node_set().union(
                Set::new(
                    |n: NodeV|
                        exists|i: int|
                            0 <= i < urls@.len() && n == node_at(
                                #[trigger] checked_url(urls@[i]@)->Ok_0,
                                None,
                            ),
                ),
            ) && b.permanode_set() == self.permanode_set()
                && b.node_manager_builder.primary_node == self.node_manager_builder.primary_node),
            forall|k: int|
                0 <= k < urls@.len() && (forall|i: int|
                    0 <= i < k ==> #[trigger] checked_url(urls@[i]@) is Ok) && checked_url(
                    urls@[k]@,
                ) is Err ==> (r matches Err(x) && x@ == checked_url(urls@[k]@)->Err_0),
    {
        let mut b = self;
        let mut i: usize = 0;
        let ghost start = b.node_set();
        while i < urls.len()
            invariant
                i <= urls@.len(),
                b.wf(),
                self.same_but_nodes(&b),
                self.same_settings(&b),
                b.permanode_set() == self.permanode_set(),
                b.node_manager_builder.primary_node == self.node_manager_builder.primary_node,
                start == self.node_set(),
                forall|j: int| 0 <= j < i ==> #[trigger] checked_url(urls@[j]@) is Ok,
                b.node_set() == start.union(
                    Set::new(
                        |n: NodeV|
                            exists|j: int|
                                0 <= j < i && n == node_at(
                                    #[trigger] checked_url(urls@[j]@)->Ok_0,
                                    None,
                                ),
                    ),
                ),
            decreases urls@.len() - i,
        {
            let ghost before = b.node_set();
            match validate_url(urls[i]) {
                Err(e) => {
                    proof {
                        assert forall|k: int|
                            0 <= k < urls@.len() && (forall|j: int|
                                0 <= j < k ==> #[trigger] checked_url(urls@[j]@) is Ok)
                                && checked_url(urls@[k]@) is Err implies k == i by {
                            if k < i {
                            } else if k > i {
                                assert(checked_url(urls@[i as int]@) is Ok);
                            }
                        }
                    }
                    return Err(e);
                },
                Ok(u) => {
                    let ghost uv = u@;
                    insert_node(&mut b.node_manager_builder.nodes, Node { url: u, auth: None, disabled: false });
                    i = i + 1;
                    proof {
                        assert(checked_url(urls@[i - 1]@) == Ok::<Seq<char>, ClientErrorV>(uv));
                        assert(b.node_set() =~= start.union(
                            Set::new(
                                |n: NodeV|
                                    exists|j: int|
                                        0 <= j < i && n == node_at(
                                            #[trigger] checked_url(urls@[j]@)->Ok_0,
                                            None,
                                        ),
                            ),
                        )) by {
                            assert forall|n: NodeV| b.node_set().contains(n) implies start.union(
                                Set::new(
                                    |n: NodeV|
                                        exists|j: int|
                                            0 <= j < i && n == node_at(
                                                #[trigger] checked_url(urls@[j]@)->Ok_0,
                                                None,
                                            ),
                                ),
                            ).contains(n) by {
                                if n == node_at(uv, None) {
                                    assert(node_at(checked_url(urls@[i - 1]@)->Ok_0, None) == n);
                                }
                            }
                        }
                    }
                },
            }
        }
        proof {
            assert forall|k: int|
                0 <= k < urls@.len() && (forall|j: int|
                    0 <= j < k ==> #[trigger] checked_url(urls@[j]@) is Ok) && checked_url(
                    urls@[k]@,
                ) is Err implies false by {
                assert(checked_url(urls@[k]@) is Ok);
            }
        }
        Ok(b)
    }

    /// Sets the interval between two synchronisations of the node pool.
    pub fn with_node_sync_interval(self, node_sync_interval: TimeSpan) -> (r: ClientBuilder)
        ensures
            r == (ClientBuilder {
                node_manager_builder: NodeManagerBuilder {
                    node_sync_interval,
                    ..self.node_manager_builder
                },
                ..self
            }),
    {
        let mut b = self;
        b.node_manager_builder.node_sync_interval = node_sync_interval;
        b
    }

    /// Takes every node for healthy and ready to use.
    pub fn with_ignore_node_health(self) -> (r: ClientBuilder)
        ensures
            r == (ClientBuilder {
                node_manager_builder: NodeManagerBuilder {
                    ignore_node_health: true,
                    ..self.node_manager_builder
                },
                ..self
            }),
    {
        let mut b = self;
        b.node_manager_builder.ignore_node_health = true;
        b
    }

    /// Sets whether a quorum is used.
    pub fn with_quorum(self, quorum: bool) -> (r: ClientBuilder)
        ensures
            r == (ClientBuilder {
                node_manager_builder: NodeManagerBuilder { quorum, ..self.node_manager_builder },
                ..self
            }),
    {
        let mut b = self;
        b.node_manager_builder.quorum = quorum;
        b
    }

    /// Sets the minimum number of nodes asked for a quorum.
    pub fn with_min_quorum_size(self, min_quorum_size: usize) -> (r: ClientBuilder)
        ensures
            r == (ClientBuilder {
                node_manager_builder: NodeManagerBuilder {
                    min_quorum_size,
                    ..self.node_manager_builder
                },
                ..self
            }),
    {
        let mut b = self;
        b.node_manager_builder.min_quorum_size = min_quorum_size;
        b
    }

    /// Sets the share of nodes, in percent, that must agree for a quorum; a share above
    /// 100 is taken as 100.
    pub fn with_quorum_threshold(self, threshold: usize) -> (r: ClientBuilder)
        ensures
            r == (ClientBuilder {
                node_manager_builder: NodeManagerBuilder {
                    quorum_threshold: if threshold > 100 {
                        100
                    } else {
                        threshold
                    },
                    ..self.node_manager_builder
                },
                ..self
            }),
            r.node_manager_builder.quorum_threshold <= 100,
    {
        let threshold = if threshold > 100 {
            100
        } else {
            threshold
        };
        let mut b = self;
        b.node_manager_builder.quorum_threshold = threshold;
        b
    }

    /// Sets the options of the MQTT broker.
    pub fn with_mqtt_broker_options(self, options: BrokerOptions) -> (r: ClientBuilder)
        ensures
            r == (ClientBuilder { broker_options: options, ..self }),
    {
        ClientBuilder { broker_options: options, ..self }
    }

    /// Sets the timeout of API requests.
    pub fn with_api_timeout(self, timeout: TimeSpan) -> (r: ClientBuilder)
        ensures
            r == (ClientBuilder { api_timeout: timeout, ..self }),
    {
        ClientBuilder { api_timeout: timeout, ..self }
    }

    /// Sets the `User-Agent` of requests.
    pub fn with_user_agent(self, user_agent: String) -> (r: ClientBuilder)
        ensures
            r == (ClientBuilder {
                node_manager_builder: NodeManagerBuilder { user_agent, ..self.node_manager_builder },
                ..self
            }),
    {
        let mut b = self;
        b.node_manager_builder.user_agent = user_agent;
        b
    }

    /// The set of nodes.
    pub open spec fn node_set(&self) -> Set<NodeV> {
        self.node_manager_builder.node_set()
    }

    /// The set of permanodes.
    pub open spec fn permanode_set(&self) -> Set<NodeV> {
        self.node_manager_builder.permanode_set()
    }
}

} // verus!
