//! MQTT events, broker options and topics.

use vstd::prelude::*;

use crate::time::TimeSpan;
use crate::text::{
    all_in_class, chars_of, char_in_class, in_class, lit_at, lit_at_exec, run_in_class, CharClass,
};

verus! {

/// Errors of the MQTT layer.
#[derive(Debug, Clone, PartialEq, Eq)]
pub enum MqttError {
    /// The string does not denote a topic that the node publishes.
    InvalidTopic(String),
}

/// A topic of the form `prefix` followed by exactly `n` lowercase hex digits and then `suffix`.
pub open spec fn hex_topic(s: Seq<char>, prefix: Seq<char>, n: int, suffix: Seq<char>) -> bool {
    &&& s.len() == prefix.len() + n + suffix.len()
    &&& lit_at(s, 0, prefix)
    &&& all_in_class(s, prefix.len() as int, prefix.len() + n, CharClass::LowerHex)
    &&& lit_at(s, prefix.len() + n, suffix)
}

/// A topic of the form `prefix` followed by one to sixty-four pairs of lowercase hex digits.
pub open spec fn hex_pairs_topic(s: Seq<char>, prefix: Seq<char>) -> bool {
    &&& lit_at(s, 0, prefix)
    &&& 2 <= s.len() - prefix.len() <= 128
    &&& (s.len() - prefix.len()) % 2 == 0
    &&& all_in_class(s, prefix.len() as int, s.len() as int, CharClass::LowerHex)
}

/// The topic of an output: `outputs/0x`, a 64-digit transaction id and a 4-digit output index.
pub open spec fn output_topic(s: Seq<char>) -> bool {
    &&& s.len() == 78
    &&& lit_at(s, 0, "outputs/0x"@)
    &&& all_in_class(s, 10, 74, CharClass::LowerHex)
    &&& all_in_class(s, 74, 78, CharClass::DecimalDigit)
}

/// The end of an address in an unlock topic, from position `b`: one or more alphanumeric
/// characters, optionally followed by `/spent`.
pub open spec fn address_tail(s: Seq<char>, b: int) -> bool {
    ||| (b < s.len() && all_in_class(s, b, s.len() as int, CharClass::Alphanumeric))
    ||| (b < s.len() - 6 && all_in_class(s, b, s.len() - 6, CharClass::Alphanumeric) && lit_at(
        s,
        s.len() - 6,
        "/spent"@,
    ))
}

/// A bech32-shaped address from position `a`: one to thirty visible characters, the
/// separator `1`, and an address tail.
pub open spec fn bech32_tail_at(s: Seq<char>, a: int, k: int) -> bool {
    &&& 1 <= k <= 30
    &&& a + k < s.len()
    &&& all_in_class(s, a, a + k, CharClass::Visible)
    &&& s[a + k] == '1'
    &&& address_tail(s, a + k + 1)
}

/// Whether some split makes `s` from position `a` a bech32-shaped address.
pub open spec fn bech32_tail(s: Seq<char>, a: int) -> bool {
    exists|k: int| bech32_tail_at(s, a, k)
}

/// `outputs/unlock/`, the unlock condition `kind`, `/` and a bech32-shaped address.
pub open spec fn unlock_kind_topic(s: Seq<char>, kind: Seq<char>) -> bool {
    &&& lit_at(s, 0, "outputs/unlock/"@)
    &&& lit_at(s, 15, kind)
    &&& lit_at(s, 15 + kind.len() as int, "/"@)
    &&& bech32_tail(s, 16 + kind.len() as int)
}

/// A topic for outputs unlockable under one of the unlock conditions.
pub open spec fn unlock_topic(s: Seq<char>) -> bool {
    ||| unlock_kind_topic(s, "+"@)
    ||| unlock_kind_topic(s, "address"@)
    ||| unlock_kind_topic(s, "storage-return"@)
    ||| unlock_kind_topic(s, "expiration"@)
    ||| unlock_kind_topic(s, "state-controller"@)
    ||| unlock_kind_topic(s, "governor"@)
    ||| unlock_kind_topic(s, "immutable-account"@)
}

/// The topics that a node publishes on its MQTT broker.
pub open spec fn valid_topic(s: Seq<char>) -> bool {
    // Commitment topics.
    ||| s == "commitment-info/latest"@
    ||| s == "commitment-info/finalized"@
    ||| s == "commitments"@
    // Block topics.
    ||| s == "blocks"@
    ||| s == "blocks/transaction"@
    ||| s == "blocks/transaction/tagged-data"@
    ||| hex_pairs_topic(s, "blocks/transaction/tagged-data/0x"@)
    ||| s == "blocks/tagged-data"@
    ||| hex_pairs_topic(s, "blocks/tagged-data/0x"@)
    ||| hex_topic(s, "block-metadata/0x"@, 64, ""@)
    ||| s == "block-metadata/accepted"@
    ||| s == "block-metadata/confirmed"@
    // Transaction topics.
    ||| hex_topic(s, "transactions/0x"@, 64, "/included-block"@)
    // Output topics.
    ||| output_topic(s)
    ||| hex_topic(s, "outputs/account/0x"@, 64, ""@)
    ||| hex_topic(s, "outputs/anchor/0x"@, 64, ""@)
    ||| hex_topic(s, "outputs/nft/0x"@, 64, ""@)
    ||| hex_topic(s, "outputs/foundry/0x"@, 76, ""@)
    ||| unlock_topic(s)
}

/// Whether `v` is exactly the characters of `lit`.
fn is_exactly(v: &Vec<char>, lit: &str) -> (r: bool)
    ensures
        r == (v@ == lit@),
{
    let r = lit_at_exec(v, 0, lit) && v.len() == lit.unicode_len();
    proof {
        if v@ == lit@ {
            assert(v@.subrange(0, lit@.len() as int) =~= lit@);
        }
        if r {
            assert(v@ =~= v@.subrange(0, lit@.len() as int));
        }
    }
    r
}

fn is_hex_topic(v: &Vec<char>, prefix: &str, n: usize, suffix: &str) -> (r: bool)
    requires
        n <= 128,
    ensures
        r == hex_topic(v@, prefix@, n as int, suffix@),
{
    let p = prefix.unicode_len();
    let q = suffix.unicode_len();
    if v.len() < p || v.len() - p < n || v.len() - p - n != q {
        return false;
    }
    lit_at_exec(v, 0, prefix) && run_in_class(v, p, p + n, CharClass::LowerHex) && lit_at_exec(
        v,
        p + n,
        suffix,
    )
}

fn is_hex_pairs_topic(v: &Vec<char>, prefix: &str) -> (r: bool)
    ensures
        r == hex_pairs_topic(v@, prefix@),
{
    let p = prefix.unicode_len();
    if v.len() < p {
        return false;
    }
    let m = v.len() - p;
    lit_at_exec(v, 0, prefix) && 2 <= m && m <= 128 && m % 2 == 0 && run_in_class(
        v,
        p,
        v.len(),
        CharClass::LowerHex,
    )
}

fn is_output_topic(v: &Vec<char>) -> (r: bool)
    ensures
        r == output_topic(v@),
{
    v.len() == 78 && lit_at_exec(v, 0, "outputs/0x") && run_in_class(v, 10, 74, CharClass::LowerHex)
        && run_in_class(v, 74, 78, CharClass::DecimalDigit)
}

fn is_address_tail(v: &Vec<char>, b: usize) -> (r: bool)
    ensures
        r == address_tail(v@, b as int),
{
    let n = v.len();
    if b < n && run_in_class(v, b, n, CharClass::Alphanumeric) {
        return true;
    }
    n >= 6 && b < n - 6 && run_in_class(v, b, n - 6, CharClass::Alphanumeric) && lit_at_exec(
        v,
        n - 6,
        "/spent",
    )
}

fn is_bech32_tail(v: &Vec<char>, a: usize) -> (r: bool)
    requires
        a <= v@.len(),
    ensures
        r == bech32_tail(v@, a as int),
{
    let n = v.len();
    let mut k: usize = 1;
    while k <= 30 && k < n - a
        invariant
            1 <= k <= 31,
            a <= n,
            n == v@.len(),
            all_in_class(v@, a as int, a + k - 1, CharClass::Visible),
            forall|j: int| 1 <= j < k ==> !bech32_tail_at(v@, a as int, j),
        decreases 31 - k,
    {
        if !char_in_class(v[a + k - 1], CharClass::Visible) {
            assert forall|j: int| 1 <= j implies !bech32_tail_at(v@, a as int, j) by {
                if j >= k && bech32_tail_at(v@, a as int, j) {
                    assert(in_class(v@[a + k - 1], CharClass::Visible));
                }
            }
            return false;
        }
        if v[a + k] == '1' && is_address_tail(v, a + k + 1) {
            assert(bech32_tail_at(v@, a as int, k as int));
            return true;
        }
        k = k + 1;
    }
    assert forall|j: int| !bech32_tail_at(v@, a as int, j) by {}
    false
}

fn is_unlock_kind_topic(v: &Vec<char>, kind: &str) -> (r: bool)
    ensures
        r == unlock_kind_topic(v@, kind@),
{
    let k = kind.unicode_len();
    if !lit_at_exec(v, 0, "outputs/unlock/") || !lit_at_exec(v, 15, kind) {
        return false;
    }
    assert(15 + k <= v.len());
    proof {
        reveal_strlit("/");
    }
    if !lit_at_exec(v, 15 + k, "/") {
        return false;
    }
    assert(16 + k <= v.len());
    is_bech32_tail(v, 16 + k)
}

fn is_unlock_topic(v: &Vec<char>) -> (r: bool)
    ensures
        r == unlock_topic(v@),
{
    is_unlock_kind_topic(v, "+") || is_unlock_kind_topic(v, "address") || is_unlock_kind_topic(
        v,
        "storage-return",
    ) || is_unlock_kind_topic(v, "expiration") || is_unlock_kind_topic(v, "state-controller")
        || is_unlock_kind_topic(v, "governor") || is_unlock_kind_topic(v, "immutable-account")
}

/// Decides whether `s` is one of the topics that a node publishes.
pub fn is_valid_topic(s: &str) -> (r: bool)
    ensures
        r == valid_topic(s@),
{
    let v = chars_of(s);
    is_exactly(&v, "commitment-info/latest") || is_exactly(&v, "commitment-info/finalized")
        || is_exactly(&v, "commitments") || is_exactly(&v, "blocks") || is_exactly(
        &v,
        "blocks/transaction",
    ) || is_exactly(&v, "blocks/transaction/tagged-data") || is_hex_pairs_topic(
        &v,
        "blocks/transaction/tagged-data/0x",
    ) || is_exactly(&v, "blocks/tagged-data") || is_hex_pairs_topic(&v, "blocks/tagged-data/0x")
        || is_hex_topic(&v, "block-metadata/0x", 64, "") || is_exactly(
        &v,
        "block-metadata/accepted",
    ) || is_exactly(&v, "block-metadata/confirmed") || is_hex_topic(
        &v,
        "transactions/0x",
        64,
        "/included-block",
    ) || is_output_topic(&v) || is_hex_topic(&v, "outputs/account/0x", 64, "") || is_hex_topic(
        &v,
        "outputs/anchor/0x",
        64,
        "",
    ) || is_hex_topic(&v, "outputs/nft/0x", 64, "") || is_hex_topic(
        &v,
        "outputs/foundry/0x",
        76,
        "",
    ) || is_unlock_topic(&v)
}

/// Events of the connection to the MQTT broker.
#[derive(Debug, Clone, Copy, PartialEq, Eq, Structural)]
pub enum MqttEvent {
    /// Client was connected.
    Connected,
    /// Client was disconnected.
    Disconnected,
}

/// The MQTT broker options.
#[derive(Debug, Clone, Copy, PartialEq, Eq, Structural)]
pub struct BrokerOptions {
    pub automatic_disconnect: bool,
    pub timeout: TimeSpan,
    pub use_ws: bool,
    pub port: u16,
    pub max_reconnection_attempts: usize,
}

/// Disconnect automatically when all topics are unsubscribed, by default.
pub fn default_broker_automatic_disconnect() -> (r: bool)
    ensures
        r,
{
    true
}

/// Thirty seconds for MQTT operations, by default.
pub fn default_broker_timeout() -> (r: TimeSpan)
    ensures
        r == (TimeSpan { secs: 30, nanos: 0 }),
{
    TimeSpan::from_secs(30)
}

/// Connect over websockets, by default.
pub fn default_broker_use_ws() -> (r: bool)
    ensures
        r,
{
    true
}

/// Port 1883, by default.
pub fn default_broker_port() -> (r: u16)
    ensures
        r == 1883,
{
    1883
}

/// No limit on reconnection attempts (`0`), by default.
pub fn default_max_reconnection_attempts() -> (r: usize)
    ensures
        r == 0,
{
    0
}

impl BrokerOptions {
    /// The default broker options.
    pub open spec fn spec_default() -> BrokerOptions {
        BrokerOptions {
            automatic_disconnect: true,
            timeout: TimeSpan { secs: 30, nanos: 0 },
            use_ws: true,
            port: 1883,
            max_reconnection_attempts: 0,
        }
    }

    /// Creates the default broker options.
    pub fn new() -> (r: Self)
        ensures
            r == Self::spec_default(),
    {
        BrokerOptions {
            automatic_disconnect: default_broker_automatic_disconnect(),
            timeout: default_broker_timeout(),
            use_ws: default_broker_use_ws(),
            port: default_broker_port(),
            max_reconnection_attempts: default_max_reconnection_attempts(),
        }
    }

    /// Whether the MQTT broker should be automatically disconnected when all topics are unsubscribed or not.
    pub fn automatic_disconnect(self, automatic_disconnect: bool) -> (r: Self)
        ensures
            r == (BrokerOptions { automatic_disconnect, ..self }),
    {
        BrokerOptions { automatic_disconnect, ..self }
    }

    /// Sets the timeout used for the MQTT operations.
    pub fn timeout(self, timeout: TimeSpan) -> (r: Self)
        ensures
            r == (BrokerOptions { timeout, ..self }),
    {
        BrokerOptions { timeout, ..self }
    }

    /// Sets the use_ws used for the MQTT operations.
    pub fn use_ws(self, use_ws: bool) -> (r: Self)
        ensures
            r == (BrokerOptions { use_ws, ..self }),
    {
        BrokerOptions { use_ws, ..self }
    }

    /// Sets the port used for the MQTT operations.
    pub fn port(self, port: u16) -> (r: Self)
        ensures
            r == (BrokerOptions { port, ..self }),
    {
        BrokerOptions { port, ..self }
    }

    /// Sets the maximum number of reconnection attempts. 0 is unlimited.
    pub fn max_reconnection_attempts(self, max_reconnection_attempts: usize) -> (r: Self)
        ensures
            r == (BrokerOptions { max_reconnection_attempts, ..self }),
    {
        BrokerOptions { max_reconnection_attempts, ..self }
    }
}

impl Default for BrokerOptions {
    fn default() -> (r: Self)
        ensures
            r == Self::spec_default(),
    {
        Self::new()
    }
}

/// A MQTT topic, one that the node publishes once it has been built by `new`.
#[derive(Debug, PartialEq, Eq)]
pub struct Topic(String);

impl Clone for Topic {
    fn clone(&self) -> (r: Self)
        ensures
            r@ == self@,
    {
        Topic(self.0.clone())
    }
}

impl View for Topic {
    type V = Seq<char>;

    closed spec fn view(&self) -> Seq<char> {
        self.0@
    }
}

impl Topic {
    /// Creates a new topic and checks if it's valid.
    pub fn new(topic: String) -> (r: Result<Self, MqttError>)
        ensures
            valid_topic(topic@) ==> (r matches Ok(t) && t@ == topic@),
            !valid_topic(topic@) ==> (r matches Err(MqttError::InvalidTopic(s)) && s@ == topic@),
    {
        let topic = Self::new_unchecked(topic);
        if topic.is_valid() {
            Ok(topic)
        } else {
            Err(MqttError::InvalidTopic(topic.0))
        }
    }

    /// Creates a new topic without checking if the given string represents a valid topic.
    pub fn new_unchecked(value: String) -> (r: Self)
        ensures
            r@ == value@,
    {
        Topic(value)
    }

    /// Whether the topic is one that the node publishes.
    pub fn is_valid(&self) -> (r: bool)
        ensures
            r == valid_topic(self@),
    {
        is_valid_topic(self.0.as_str())
    }

    /// Returns the topic as a str.
    pub fn as_str(&self) -> (r: &str)
        ensures
            r@ == self@,
    {
        self.0.as_str()
    }
}

/// Whether every character of `h` is a lowercase hexadecimal digit.
pub open spec fn lower_hex_digits(h: Seq<char>) -> bool {
    forall|i: int| 0 <= i < h.len() ==> ('0' <= #[trigger] h[i] && h[i] <= '9') || ('a' <= h[i] && h[i] <= 'f')
}

/// Whether every character of `d` is an ASCII decimal digit.
pub open spec fn ascii_digits(d: Seq<char>) -> bool {
    forall|i: int| 0 <= i < d.len() ==> '0' <= #[trigger] d[i] && d[i] <= '9'
}

proof fn lemma_hex_topic_of(prefix: Seq<char>, h: Seq<char>, suffix: Seq<char>)
    requires
        lower_hex_digits(h),
    ensures
        hex_topic(prefix + h + suffix, prefix, h.len() as int, suffix),
{
    let s = prefix + h + suffix;
    assert(s.subrange(0, prefix.len() as int) =~= prefix);
    assert(s.subrange(prefix.len() + h.len() as int, prefix.len() + h.len() + suffix.len() as int) =~= suffix);
    assert forall|i: int| prefix.len() <= i < prefix.len() + h.len() implies #[trigger] in_class(
        s[i],
        CharClass::LowerHex,
    ) by {
        assert(s[i] == h[i - prefix.len()]);
    }
}

/// Every topic of a block, a transaction's included block, an account, an anchor or an nft,
/// given by a 64-digit lowercase hexadecimal id, and of a foundry, given by a 76-digit one,
/// is a topic that the node publishes.
pub proof fn lemma_id_topics_valid(h: Seq<char>, f: Seq<char>)
    requires
        h.len() == 64,
        lower_hex_digits(h),
        f.len() == 76,
        lower_hex_digits(f),
    ensures
        valid_topic("block-metadata/0x"@ + h),
        valid_topic("transactions/0x"@ + h + "/included-block"@),
        valid_topic("outputs/account/0x"@ + h),
        valid_topic("outputs/anchor/0x"@ + h),
        valid_topic("outputs/nft/0x"@ + h),
        valid_topic("outputs/foundry/0x"@ + f),
{
    reveal_strlit("");
    lemma_hex_topic_of("block-metadata/0x"@, h, ""@);
    assert("block-metadata/0x"@ + h + ""@ =~= "block-metadata/0x"@ + h);
    lemma_hex_topic_of("transactions/0x"@, h, "/included-block"@);
    lemma_hex_topic_of("outputs/account/0x"@, h, ""@);
    assert("outputs/account/0x"@ + h + ""@ =~= "outputs/account/0x"@ + h);
    lemma_hex_topic_of("outputs/anchor/0x"@, h, ""@);
    assert("outputs/anchor/0x"@ + h + ""@ =~= "outputs/anchor/0x"@ + h);
    lemma_hex_topic_of("outputs/nft/0x"@, h, ""@);
    assert("outputs/nft/0x"@ + h + ""@ =~= "outputs/nft/0x"@ + h);
    lemma_hex_topic_of("outputs/foundry/0x"@, f, ""@);
    assert("outputs/foundry/0x"@ + f + ""@ =~= "outputs/foundry/0x"@ + f);
}

/// The topic of an output, given by its 64-digit transaction id and a 4-digit index, and the
/// tagged-data topics, given by one to sixty-four pairs of lowercase hexadecimal digits, are
/// topics that the node publishes; so are the fixed topics.
pub proof fn lemma_output_and_tag_topics_valid(h: Seq<char>, d: Seq<char>, tag: Seq<char>)
    requires
        h.len() == 64,
        lower_hex_digits(h),
        d.len() == 4,
        ascii_digits(d),
        2 <= tag.len() <= 128,
        tag.len() % 2 == 0,
        lower_hex_digits(tag),
    ensures
        valid_topic("outputs/0x"@ + h + d),
        valid_topic("blocks/tagged-data/0x"@ + tag),
        valid_topic("blocks/transaction/tagged-data/0x"@ + tag),
        valid_topic("commitment-info/latest"@),
        valid_topic("commitment-info/finalized"@),
        valid_topic("commitments"@),
        valid_topic("blocks"@),
        valid_topic("blocks/transaction"@),
        valid_topic("blocks/transaction/tagged-data"@),
        valid_topic("blocks/tagged-data"@),
        valid_topic("block-metadata/accepted"@),
        valid_topic("block-metadata/confirmed"@),
{
    reveal_strlit("outputs/0x");
    let s = "outputs/0x"@ + h + d;
    assert(s.subrange(0, 10) =~= "outputs/0x"@);
    assert forall|i: int| 10 <= i < 74 implies #[trigger] in_class(s[i], CharClass::LowerHex) by {
        assert(s[i] == h[i - 10]);
    }
    assert forall|i: int| 74 <= i < 78 implies #[trigger] in_class(s[i], CharClass::DecimalDigit) by {
        assert(s[i] == d[i - 74]);
    }
    assert(output_topic(s));
    let p1 = "blocks/tagged-data/0x"@;
    let t1 = p1 + tag;
    assert(t1.subrange(0, p1.len() as int) =~= p1);
    assert forall|i: int| p1.len() <= i < t1.len() implies #[trigger] in_class(t1[i], CharClass::LowerHex) by {
        assert(t1[i] == tag[i - p1.len()]);
    }
    assert(hex_pairs_topic(t1, p1));
    let p2 = "blocks/transaction/tagged-data/0x"@;
    let t2 = p2 + tag;
    assert(t2.subrange(0, p2.len() as int) =~= p2);
    assert forall|i: int| p2.len() <= i < t2.len() implies #[trigger] in_class(t2[i], CharClass::LowerHex) by {
        assert(t2[i] == tag[i - p2.len()]);
    }
    assert(hex_pairs_topic(t2, p2));
}

/// Whether every character of `t` is an ASCII letter or digit.
pub open spec fn alphanumeric_chars(t: Seq<char>) -> bool {
    forall|i: int|
        0 <= i < t.len() ==> ('0' <= #[trigger] t[i] && t[i] <= '9') || ('a' <= t[i] && t[i] <= 'z') || ('A' <= t[i]
            && t[i] <= 'Z')
}

/// Whether every character of `t` is a visible ASCII character.
pub open spec fn visible_chars(t: Seq<char>) -> bool {
    forall|i: int| 0 <= i < t.len() ==> '!' <= #[trigger] t[i] && t[i] <= '~'
}

proof fn lemma_unlock_topic_of(kind: Seq<char>, hrp: Seq<char>, data: Seq<char>, spent: bool)
    requires
        1 <= hrp.len() <= 30,
        visible_chars(hrp),
        1 <= data.len(),
        alphanumeric_chars(data),
    ensures
        unlock_kind_topic(
            "outputs/unlock/"@ + kind + "/"@ + (hrp + seq!['1'] + data + (if spent { "/spent"@ } else { ""@ })),
            kind,
        ),
{
    reveal_strlit("outputs/unlock/");
    reveal_strlit("/");
    reveal_strlit("/spent");
    reveal_strlit("");
    let tail: Seq<char> = if spent { "/spent"@ } else { ""@ };
    let s = "outputs/unlock/"@ + kind + "/"@ + (hrp + seq!['1'] + data + tail);
    assert(s =~= "outputs/unlock/"@ + kind + "/"@ + hrp + seq!['1'] + data + tail);
    let a = 16 + kind.len() as int;
    let k = hrp.len() as int;
    assert(s.subrange(0, 15) =~= "outputs/unlock/"@);
    assert(s.subrange(15, 15 + kind.len() as int) =~= kind);
    assert(s.subrange(15 + kind.len() as int, 16 + kind.len() as int) =~= "/"@);
    assert forall|i: int| a <= i < a + k implies #[trigger] in_class(s[i], CharClass::Visible) by {
        assert(s[i] == hrp[i - a]);
    }
    assert(s[a + k] == '1');
    let b = a + k + 1;
    if spent {
        assert forall|i: int| b <= i < s.len() - 6 implies #[trigger] in_class(s[i], CharClass::Alphanumeric) by {
            assert(s[i] == data[i - b]);
        }
        assert(s.subrange(s.len() - 6, s.len() as int) =~= "/spent"@);
        assert(address_tail(s, b));
    } else {
        assert forall|i: int| b <= i < s.len() implies #[trigger] in_class(s[i], CharClass::Alphanumeric) by {
            assert(s[i] == data[i - b]);
        }
        assert(address_tail(s, b));
    }
    assert(bech32_tail_at(s, a, k));
}

/// The topics of outputs unlockable by a bech32-shaped address (a visible human-readable part
/// of one to thirty characters, the separator `1` and alphanumeric data), under any unlock
/// condition and optionally for spent outputs only, are topics that the node publishes.
pub proof fn lemma_unlock_topics_valid(hrp: Seq<char>, data: Seq<char>, spent: bool)
    requires
        1 <= hrp.len() <= 30,
        visible_chars(hrp),
        1 <= data.len(),
        alphanumeric_chars(data),
    ensures
        ({
            let addr = hrp + seq!['1'] + data + (if spent { "/spent"@ } else { ""@ });
            &&& valid_topic("outputs/unlock/"@ + "+"@ + "/"@ + addr)
            &&& valid_topic("outputs/unlock/"@ + "address"@ + "/"@ + addr)
            &&& valid_topic("outputs/unlock/"@ + "storage-return"@ + "/"@ + addr)
            &&& valid_topic("outputs/unlock/"@ + "expiration"@ + "/"@ + addr)
            &&& valid_topic("outputs/unlock/"@ + "state-controller"@ + "/"@ + addr)
            &&& valid_topic("outputs/unlock/"@ + "governor"@ + "/"@ + addr)
            &&& valid_topic("outputs/unlock/"@ + "immutable-account"@ + "/"@ + addr)
        }),
{
    lemma_unlock_topic_of("+"@, hrp, data, spent);
    lemma_unlock_topic_of("address"@, hrp, data, spent);
    lemma_unlock_topic_of("storage-return"@, hrp, data, spent);
    lemma_unlock_topic_of("expiration"@, hrp, data, spent);
    lemma_unlock_topic_of("state-controller"@, hrp, data, spent);
    lemma_unlock_topic_of("governor"@, hrp, data, spent);
    lemma_unlock_topic_of("immutable-account"@, hrp, data, spent);
}

} // verus!
