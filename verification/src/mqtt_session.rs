//! The decisions of an MQTT session: how to reach a node's broker, what each event of the
//! connection asks for, and which subscriptions remain after an unsubscription.

use vstd::prelude::*;

use crate::mqtt::{BrokerOptions, MqttEvent, Topic};
use crate::text::{
    chars_of, decimal, hex_digits, lit_at, lit_at_exec, push_chars, push_decimal,
    push_hex, same_text,
};

verus! {

broadcast use vstd::seq_lib::lemma_seq_contains_after_push;

/// How the connection to a broker is carried.
#[derive(Clone, Copy, Debug, PartialEq, Eq, Structural)]
pub enum TransportKind {
    /// Plain TCP.
    Tcp,
    /// TCP with TLS.
    Tls,
    /// Websockets.
    Ws,
    /// Websockets over TLS.
    Wss,
}

/// Where and how to connect to a node's MQTT broker.
#[derive(Debug)]
pub struct BrokerEndpoint {
    /// The host, or the websocket URI.
    pub uri: String,
    /// The port handed to the MQTT options.
    pub port: u16,
    /// The transport.
    pub transport: TransportKind,
}

/// `path` without one trailing `/`.
pub open spec fn trim_slash(path: Seq<char>) -> Seq<char> {
    if path.len() > 0 && path.last() == '/' {
        path.drop_last()
    } else {
        path
    }
}

/// The websocket URI of the broker of a node at `host` and `port` under `path`.
pub open spec fn ws_uri(secure: bool, host: Seq<char>, port: u16, path: Seq<char>) -> Seq<char> {
    (if secure {
        "wss"@
    } else {
        "ws"@
    }) + "://"@ + host + seq![':'] + decimal(port as nat) + trim_slash(path) + "/api/mqtt/v2"@
}

/// The endpoint of the broker of a node whose URL has the given scheme, host, port (the
/// URL's own or the scheme's default) and path: over websockets at the node's URL, or
/// over TCP at its host, with TLS where the node speaks `https`.
pub open spec fn endpoint_spec(
    options: BrokerOptions,
    scheme: Seq<char>,
    host: Seq<char>,
    url_port: Option<u16>,
    path: Seq<char>,
) -> (Seq<char>, u16, TransportKind) {
    let secure = scheme == "https"@;
    if options.use_ws {
        (
            ws_uri(
                secure,
                host,
                match url_port {
                    Some(p) => p,
                    None => options.port,
                },
                path,
            ),
            options.port,
            if secure {
                TransportKind::Wss
            } else {
                TransportKind::Ws
            },
        )
    } else {
        (host, options.port, if secure {
            TransportKind::Tls
        } else {
            TransportKind::Tcp
        })
    }
}

/// The endpoint of the broker of a node whose URL has the given parts.
pub fn broker_endpoint(
    options: &BrokerOptions,
    scheme: &str,
    host: &str,
    url_port: Option<u16>,
    path: &str,
) -> (r: BrokerEndpoint)
    ensures
        (r.uri@, r.port, r.transport) == endpoint_spec(*options, scheme@, host@, url_port, path@),
{
    let secure = same_text(scheme, "https");
    if options.use_ws {
        let mut uri = if secure {
            String::from_str("wss")
        } else {
            String::from_str("ws")
        };
        uri.append("://");
        uri.append(host);
        uri.push(':');
        let port = match url_port {
            Some(p) => p,
            None => options.port,
        };
        push_decimal(&mut uri, port as u64);
        let p = chars_of(path);
        let mut trimmed = p.clone();
        if trimmed.len() > 0 && trimmed[trimmed.len() - 1] == '/' {
            trimmed.pop();
        }
        proof {
            assert(p@ == path@);
            assert(trimmed@ =~= trim_slash(path@));
        }
        push_chars(&mut uri, &trimmed);
        uri.append("/api/mqtt/v2");
        proof {
            assert(uri@ =~= ws_uri(secure, host@, port, path@));
        }
        BrokerEndpoint {
            uri,
            port: options.port,
            transport: if secure {
                TransportKind::Wss
            } else {
                TransportKind::Ws
            },
        }
    } else {
        BrokerEndpoint {
            uri: String::from_str(host),
            port: options.port,
            transport: if secure {
                TransportKind::Tls
            } else {
                TransportKind::Tcp
            },
        }
    }
}

/// What `url::Url::parse` makes of a node URL that the broker endpoint reads: its scheme,
/// host, port (the URL's own or the scheme's default) and path; nothing where the URL does
/// not parse or has no host.
pub uninterp spec fn url_endpoint_parts(url: Seq<char>) -> Option<(Seq<char>, Seq<char>, Option<u16>, Seq<char>)>;

/// Reads a node URL with `url::Url::parse` and its `scheme`, `host_str`,
/// `port_or_known_default` and `path`.
/// Trusted: the result is the named reading of `url`.
#[verifier::external_body]
fn read_url_parts(url: &str) -> (r: Option<(String, String, Option<u16>, String)>)
    ensures
        match r {
            Some((s, h, p, q)) => url_endpoint_parts(url@) == Some((s@, h@, p, q@)),
            None => url_endpoint_parts(url@) is None,
        },
{
    match url::Url::parse(url) {
        Ok(u) => match u.host_str() {
            Some(h) => Some((u.scheme().to_string(), h.to_string(), u.port_or_known_default(), u.path().to_string())),
            None => None,
        },
        Err(_) => None,
    }
}

/// The endpoint of the broker of the node at `url`; nothing where the URL has no host.
pub fn node_broker_endpoint(options: &BrokerOptions, url: &str) -> (r: Option<BrokerEndpoint>)
    ensures
        match url_endpoint_parts(url@) {
            Some((s, h, p, q)) => r matches Some(e) && (e.uri@, e.port, e.transport) == endpoint_spec(
                *options,
                s,
                h,
                p,
                q,
            ),
            None => r is None,
        },
{
    match read_url_parts(url) {
        Some((scheme, host, port, path)) => Some(
            broker_endpoint(options, scheme.as_str(), host.as_str(), port, path.as_str()),
        ),
        None => None,
    }
}

/// The MQTT client id made of random bytes: `iotasdk` and the bytes in `0x`-prefixed
/// lowercase hexadecimal.
pub fn mqtt_client_id(entropy: &Vec<u8>) -> (r: String)
    ensures
        r@ == "iotasdk0x"@ + hex_digits(entropy@),
{
    let mut id = String::from_str("iotasdk0x");
    push_hex(&mut id, entropy);
    id
}

/// The state of the polling of a broker connection.
#[derive(Clone, Copy, Debug, PartialEq, Eq, Structural)]
pub struct PollState {
    /// Whether the subscriptions are in place; they are lost when the connection fails.
    pub is_subscribed: bool,
    /// The number of connection failures in a row, each within five seconds of the one
    /// before.
    pub connection_failure_count: usize,
}

/// An event of a broker connection.
#[derive(Clone, Copy, Debug, PartialEq, Eq, Structural)]
pub enum PollEvent {
    /// The broker acknowledged the connection.
    ConnAck,
    /// A message was published on a topic.
    Publish,
    /// The connection failed, so many seconds after the previous failure (or after the
    /// start of the polling).
    Error { secs_since_last_error: u64 },
    /// Any other event.
    Other,
}

/// What to do after an event.
#[derive(Clone, Copy, Debug, PartialEq, Eq, Structural)]
pub enum PollAction {
    /// Announce the connection; subscribe again to the topics where they were lost.
    Connected { resubscribe: bool },
    /// Hand the message to the handlers of its topic.
    Dispatch,
    /// Announce the disconnection and stop polling.
    Disconnect,
    /// Keep polling.
    Continue,
}

impl PollState {
    /// The state at the start: subscribed, no failure.
    pub fn new() -> (r: PollState)
        ensures
            r == (PollState { is_subscribed: true, connection_failure_count: 0 }),
    {
        PollState { is_subscribed: true, connection_failure_count: 0 }
    }

    /// The state and the action after `event`: a failure within five seconds of the one
    /// before adds to the count, a later one starts it again at one; when the count
    /// reaches the allowed number of reconnection attempts, the session is disconnected.
    pub open spec fn step(self, event: PollEvent, max_reconnection_attempts: usize) -> (PollState, PollAction) {
        match event {
            PollEvent::ConnAck => (
                PollState { is_subscribed: true, ..self },
                PollAction::Connected { resubscribe: !self.is_subscribed },
            ),
            PollEvent::Publish => (self, PollAction::Dispatch),
            PollEvent::Error { secs_since_last_error } => {
                let count = if secs_since_last_error < 5 {
                    self.connection_failure_count + 1
                } else {
                    1
                };
                if count == max_reconnection_attempts {
                    (
                        PollState { connection_failure_count: count as usize, ..self },
                        PollAction::Disconnect,
                    )
                } else {
                    (
                        PollState { is_subscribed: false, connection_failure_count: count as usize },
                        PollAction::Continue,
                    )
                }
            },
            PollEvent::Other => (self, PollAction::Continue),
        }
    }

    /// Handles one event of the connection.
    pub fn poll_step(&mut self, event: PollEvent, max_reconnection_attempts: usize) -> (r: PollAction)
        requires
            event matches PollEvent::Error { secs_since_last_error } && secs_since_last_error < 5
                ==> old(self).connection_failure_count < usize::MAX,
        ensures
            (*final(self), r) == old(self).step(event, max_reconnection_attempts),
    {
        match event {
            PollEvent::ConnAck => {
                let resubscribe = !self.is_subscribed;
                self.is_subscribed = true;
                PollAction::Connected { resubscribe }
            },
            PollEvent::Publish => PollAction::Dispatch,
            PollEvent::Error { secs_since_last_error } => {
                let count = if secs_since_last_error < 5 {
                    self.connection_failure_count + 1
                } else {
                    1
                };
                self.connection_failure_count = count;
                if count == max_reconnection_attempts {
                    PollAction::Disconnect
                } else {
                    self.is_subscribed = false;
                    PollAction::Continue
                }
            },
            PollEvent::Other => PollAction::Continue,
        }
    }
}

/// Whether the text `lit` occurs somewhere in `s`.
pub open spec fn has_text(s: Seq<char>, lit: Seq<char>) -> bool {
    exists|i: int| #[trigger] lit_at(s, i, lit)
}

/// Whether `v` holds the characters of `lit` somewhere.
fn has_text_exec(v: &Vec<char>, lit: &str) -> (r: bool)
    ensures
        r == has_text(v@, lit@),
{
    let n = v.len();
    let mut i: usize = 0;
    while i <= n
        invariant
            n == v@.len(),
            forall|j: int| 0 <= j < i ==> !lit_at(v@, j, lit@),
        decreases n + 1 - i,
    {
        if lit_at_exec(v, i, lit) {
            return true;
        }
        if i == n {
            proof {
                assert forall|j: int| !#[trigger] lit_at(v@, j, lit@) by {
                    if j > n {
                    }
                }
            }
            return false;
        }
        i = i + 1;
    }
    false
}

/// Whether a message on `topic` carries a block (the topic names blocks or an included
/// block) rather than other JSON.
pub fn topic_carries_block(topic: &str) -> (r: bool)
    ensures
        r == (has_text(topic@, "blocks"@) || has_text(topic@, "included-block"@)),
{
    let v = chars_of(topic);
    has_text_exec(&v, "blocks") || has_text_exec(&v, "included-block")
}

/// The values of a list of topics.
pub open spec fn topics_view(s: Seq<Topic>) -> Seq<Seq<char>> {
    s.map_values(|t: Topic| t@)
}

/// What an unsubscription does: the topics to unsubscribe from (the given ones, or every
/// subscribed topic where none is given), the subscriptions that remain, and whether the
/// session is then disconnected (automatically, once no subscription remains).
pub open spec fn unsubscription(
    requested: Seq<Seq<char>>,
    subscribed: Seq<Seq<char>>,
    automatic_disconnect: bool,
) -> (Seq<Seq<char>>, Set<Seq<char>>, bool) {
    let topics = if requested.len() == 0 {
        subscribed
    } else {
        requested
    };
    let remaining = subscribed.to_set().difference(topics.to_set());
    (topics, remaining, automatic_disconnect && remaining.is_empty())
}

fn clone_topics(v: &Vec<Topic>) -> (r: Vec<Topic>)
    ensures
        topics_view(r@) == topics_view(v@),
{
    let mut r: Vec<Topic> = Vec::new();
    let mut i: usize = 0;
    while i < v.len()
        invariant
            i <= v@.len(),
            topics_view(r@) == topics_view(v@).take(i as int),
        decreases v@.len() - i,
    {
        let c = v[i].clone();
        let ghost before = topics_view(r@);
        r.push(c);
        assert(topics_view(r@) =~= before.push(v@[i as int]@));
        assert(topics_view(v@).take(i + 1) =~= topics_view(v@).take(i as int).push(v@[i as int]@));
        i = i + 1;
    }
    assert(topics_view(v@).take(i as int) =~= topics_view(v@));
    r
}

fn contains_topic(v: &Vec<Topic>, t: &Topic) -> (r: bool)
    ensures
        r == topics_view(v@).contains(t@),
{
    let mut i: usize = 0;
    while i < v.len()
        invariant
            i <= v@.len(),
            forall|j: int| 0 <= j < i ==> v@[j]@ != t@,
        decreases v@.len() - i,
    {
        if same_text(v[i].as_str(), t.as_str()) {
            assert(topics_view(v@)[i as int] == t@);
            return true;
        }
        i = i + 1;
    }
    proof {
        if topics_view(v@).contains(t@) {
            let j = choose|j: int| 0 <= j < v@.len() && topics_view(v@)[j] == t@;
            assert(v@[j]@ == t@);
        }
    }
    false
}

/// Plans an unsubscription: the topics to unsubscribe from, the subscribed topics that
/// remain (each once, in their order), and whether to disconnect afterwards.
pub fn plan_unsubscription(
    requested: &Vec<Topic>,
    subscribed: &Vec<Topic>,
    options: &BrokerOptions,
) -> (r: (Vec<Topic>, Vec<Topic>, bool))
    ensures
        ({
            let (topics, remaining, disconnect) = unsubscription(
                topics_view(requested@),
                topics_view(subscribed@),
                options.automatic_disconnect,
            );
            topics_view(r.0@) == topics && topics_view(r.1@).to_set() == remaining && r.2 == disconnect
        }),
{
    let topics = if requested.len() == 0 {
        clone_topics(subscribed)
    } else {
        clone_topics(requested)
    };
    let ghost tv = topics_view(topics@);
    let ghost sv = topics_view(subscribed@);
    let mut remaining: Vec<Topic> = Vec::new();
    let mut i: usize = 0;
    while i < subscribed.len()
        invariant
            i <= subscribed@.len(),
            tv == topics_view(topics@),
            sv == topics_view(subscribed@),
            forall|t: Seq<char>|
                #[trigger] topics_view(remaining@).contains(t) <==> (sv.take(i as int).contains(t)
                    && !tv.contains(t)),
        decreases subscribed@.len() - i,
    {
        let ghost before = topics_view(remaining@);
        let keep = !contains_topic(&topics, &subscribed[i]);
        if keep {
            let c = subscribed[i].clone();
            remaining.push(c);
            assert(topics_view(remaining@) =~= before.push(sv[i as int]));
        } else {
            assert(topics_view(remaining@) =~= before);
        }
        proof {
            let pre = sv.take(i as int);
            assert(sv.take(i + 1) =~= pre.push(sv[i as int]));
            assert(keep == !tv.contains(sv[i as int]));
            assert forall|t: Seq<char>| topics_view(remaining@).contains(t) <==> (sv.take(i + 1).contains(
                t,
            ) && !tv.contains(t)) by {
                assert(pre.push(sv[i as int]).contains(t) <==> (sv[i as int] == t || pre.contains(t)));
                if keep {
                    assert(before.push(sv[i as int]).contains(t) <==> (sv[i as int] == t || before.contains(t)));
                }
            }
        }
        i = i + 1;
    }
    let disconnect = options.automatic_disconnect && remaining.len() == 0;
    proof {
        assert(sv.take(i as int) =~= sv);
        let set = sv.to_set().difference(tv.to_set());
        assert forall|t: Seq<char>| topics_view(remaining@).to_set().contains(t) <==> set.contains(t) by {
            assert(topics_view(remaining@).contains(t) <==> (sv.take(i as int).contains(t) && !tv.contains(t)));
        }
        assert(topics_view(remaining@).to_set() =~= set);
        if remaining@.len() == 0 {
            assert(set =~= Set::<Seq<char>>::empty());
        } else {
            assert(set.contains(topics_view(remaining@)[0]));
        }
    }
    (topics, remaining, disconnect)
}

/// Whether a stored broker client is dropped before connecting: after the session was
/// announced as disconnected, the connection is made anew.
pub fn drops_client_on(event: &MqttEvent) -> (r: bool)
    ensures
        r == (*event == MqttEvent::Disconnected),
{
    match event {
        MqttEvent::Disconnected => true,
        MqttEvent::Connected => false,
    }
}

} // verus!
