//! Query strings of the indexer routes: which parameters are set, and how they are
//! written as `name=value` pairs.

use vstd::prelude::*;

use crate::bech32_address::{bech32_text, Bech32Address};
use crate::ledger::{Id, OutputId, SlotIndex};
use crate::text::{chars_of, decimal, ends_with, hex_digits, lit_at, lit_at_exec, push_decimal, push_hex};

verus! {

/// One `name=value` pair.
pub open spec fn pair_text(p: (Seq<char>, Seq<char>)) -> Seq<char> {
    p.0 + seq!['='] + p.1
}

/// The pairs written one after the other, separated by `&`.
pub open spec fn query_text(ps: Seq<(Seq<char>, Seq<char>)>) -> Seq<char>
    decreases ps.len(),
{
    if ps.len() == 0 {
        Seq::empty()
    } else if ps.len() == 1 {
        pair_text(ps[0])
    } else {
        query_text(ps.drop_last()) + seq!['&'] + pair_text(ps.last())
    }
}

/// The query string of the pairs: nothing where there is no pair.
pub open spec fn query_string(ps: Seq<(Seq<char>, Seq<char>)>) -> Option<Seq<char>> {
    if ps.len() == 0 {
        None
    } else {
        Some(query_text(ps))
    }
}

/// The characters of an optional string.
pub open spec fn opt_chars(s: Option<String>) -> Option<Seq<char>> {
    match s {
        Some(t) => Some(t@),
        None => None,
    }
}

/// The text of a flag.
pub open spec fn bool_text(b: bool) -> Seq<char> {
    if b {
        "true"@
    } else {
        "false"@
    }
}

/// The text of a token id: `0x` and its lowercase hexadecimal digits.
pub open spec fn token_text(id: Seq<u8>) -> Seq<char> {
    "0x"@ + hex_digits(id)
}

/// The pair of a flag, if it is set.
#[verifier::opaque]
pub open spec fn flag_pair(key: Seq<char>, v: Option<bool>) -> Seq<(Seq<char>, Seq<char>)> {
    match v {
        Some(b) => seq![(key, bool_text(b))],
        None => Seq::empty(),
    }
}

/// The pair of a text, if it is set.
#[verifier::opaque]
pub open spec fn text_pair(key: Seq<char>, v: Option<String>) -> Seq<(Seq<char>, Seq<char>)> {
    match v {
        Some(t) => seq![(key, t@)],
        None => Seq::empty(),
    }
}

/// The pair of a slot index, if it is set.
#[verifier::opaque]
pub open spec fn slot_pair(key: Seq<char>, v: Option<SlotIndex>) -> Seq<(Seq<char>, Seq<char>)> {
    match v {
        Some(n) => seq![(key, decimal(n.0 as nat))],
        None => Seq::empty(),
    }
}

/// The pair of a size, if it is set.
#[verifier::opaque]
pub open spec fn size_pair(key: Seq<char>, v: Option<usize>) -> Seq<(Seq<char>, Seq<char>)> {
    match v {
        Some(n) => seq![(key, decimal(n as nat))],
        None => Seq::empty(),
    }
}

/// The pair of an address, if it is set.
#[verifier::opaque]
pub open spec fn address_pair(key: Seq<char>, v: Option<Bech32Address>) -> Seq<
    (Seq<char>, Seq<char>),
> {
    match v {
        Some(a) => seq![(key, bech32_text(a@))],
        None => Seq::empty(),
    }
}

/// The pair of a token id, if it is set.
#[verifier::opaque]
pub open spec fn token_pair(key: Seq<char>, v: Option<Id>) -> Seq<(Seq<char>, Seq<char>)> {
    match v {
        Some(id) => seq![(key, token_text(id@))],
        None => Seq::empty(),
    }
}

/// A query string under construction.
struct QueryWriter {
    out: String,
    empty: bool,
    pairs: Ghost<Seq<(Seq<char>, Seq<char>)>>,
}

impl QueryWriter {
    spec fn wf(&self) -> bool {
        &&& self.out@ == query_text(self.pairs@)
        &&& (self.empty <==> self.pairs@.len() == 0)
    }

    fn new() -> (w: QueryWriter)
        ensures
            w.wf(),
            w.pairs@ == Seq::<(Seq<char>, Seq<char>)>::empty(),
    {
        QueryWriter { out: String::new(), empty: true, pairs: Ghost(Seq::empty()) }
    }

    /// Writes the pair `key=value`.
    fn push_pair(&mut self, key: &str, value: &str)
        requires
            old(self).wf(),
        ensures
            final(self).wf(),
            final(self).pairs@ == old(self).pairs@.push((key@, value@)),
    {
        let ghost ps = self.pairs@;
        if !self.empty {
            self.out.push('&');
        }
        self.out.append(key);
        self.out.push('=');
        self.out.append(value);
        self.pairs = Ghost(ps.push((key@, value@)));
        self.empty = false;
        proof {
            let qs = ps.push((key@, value@));
            assert(qs.drop_last() =~= ps);
            assert(qs.last() == (key@, value@));
            if ps.len() == 0 {
                assert(self.out@ =~= query_text(qs));
            } else {
                assert(self.out@ =~= query_text(qs));
            }
        }
    }

    fn write_flag(&mut self, key: &str, v: Option<bool>)
        requires
            old(self).wf(),
        ensures
            final(self).wf(),
            final(self).pairs@ == old(self).pairs@ + flag_pair(key@, v),
    {
        reveal(flag_pair);
        let ghost ps = self.pairs@;
        match v {
            Some(b) => {
                let t = if b {
                    String::from_str("true")
                } else {
                    String::from_str("false")
                };
                self.push_pair(key, t.as_str());
                assert(self.pairs@ =~= ps + flag_pair(key@, v));
            },
            None => {
                assert(self.pairs@ =~= ps + flag_pair(key@, v));
            },
        }
    }

    fn write_text(&mut self, key: &str, v: &Option<String>)
        requires
            old(self).wf(),
        ensures
            final(self).wf(),
            final(self).pairs@ == old(self).pairs@ + text_pair(key@, *v),
    {
        reveal(text_pair);
        let ghost ps = self.pairs@;
        match v {
            Some(t) => {
                self.push_pair(key, t.as_str());
                assert(self.pairs@ =~= ps + text_pair(key@, *v));
            },
            None => {
                assert(self.pairs@ =~= ps + text_pair(key@, *v));
            },
        }
    }

    fn write_slot(&mut self, key: &str, v: Option<SlotIndex>)
        requires
            old(self).wf(),
        ensures
            final(self).wf(),
            final(self).pairs@ == old(self).pairs@ + slot_pair(key@, v),
    {
        reveal(slot_pair);
        let ghost ps = self.pairs@;
        match v {
            Some(n) => {
                let mut t = String::new();
                push_decimal(&mut t, n.0 as u64);
                self.push_pair(key, t.as_str());
                assert(self.pairs@ =~= ps + slot_pair(key@, v));
            },
            None => {
                assert(self.pairs@ =~= ps + slot_pair(key@, v));
            },
        }
    }

    fn write_size(&mut self, key: &str, v: Option<usize>)
        requires
            old(self).wf(),
        ensures
            final(self).wf(),
            final(self).pairs@ == old(self).pairs@ + size_pair(key@, v),
    {
        reveal(size_pair);
        let ghost ps = self.pairs@;
        match v {
            Some(n) => {
                let mut t = String::new();
                push_decimal(&mut t, n as u64);
                self.push_pair(key, t.as_str());
                assert(self.pairs@ =~= ps + size_pair(key@, v));
            },
            None => {
                assert(self.pairs@ =~= ps + size_pair(key@, v));
            },
        }
    }

    fn write_address(&mut self, key: &str, v: &Option<Bech32Address>)
        requires
            old(self).wf(),
        ensures
            final(self).wf(),
            final(self).pairs@ == old(self).pairs@ + address_pair(key@, *v),
    {
        reveal(address_pair);
        let ghost ps = self.pairs@;
        match v {
            Some(a) => {
                let t = a.to_bech32_string();
                self.push_pair(key, t.as_str());
                assert(self.pairs@ =~= ps + address_pair(key@, *v));
            },
            None => {
                assert(self.pairs@ =~= ps + address_pair(key@, *v));
            },
        }
    }

    fn write_token(&mut self, key: &str, v: &Option<Id>)
        requires
            old(self).wf(),
        ensures
            final(self).wf(),
            final(self).pairs@ == old(self).pairs@ + token_pair(key@, *v),
    {
        reveal(token_pair);
        let ghost ps = self.pairs@;
        match v {
            Some(id) => {
                let mut t = String::from_str("0x");
                push_hex(&mut t, &id.bytes);
                self.push_pair(key, t.as_str());
                assert(self.pairs@ =~= ps + token_pair(key@, *v));
            },
            None => {
                assert(self.pairs@ =~= ps + token_pair(key@, *v));
            },
        }
    }

    /// The query string: nothing where no pair was written.
    fn finish(self) -> (r: Option<String>)
        requires
            self.wf(),
        ensures
            opt_chars(r) == query_string(self.pairs@),
    {
        if self.empty {
            None
        } else {
            Some(self.out)
        }
    }
}


/// Whether the text `lit` occurs somewhere in `s`.
pub open spec fn contains_text(s: Seq<char>, lit: Seq<char>) -> bool {
    exists|i: int| #[trigger] lit_at(s, i, lit)
}

/// Whether a query string asks for a single page: it holds an empty cursor, written as
/// `cursor=` followed by `&` or by nothing.
pub open spec fn asks_single_page(query: Option<Seq<char>>) -> bool {
    match query {
        Some(s) => contains_text(s, "cursor=&"@) || ends_with(s, "cursor="@),
        None => false,
    }
}

/// Decides `asks_single_page` for a query string.
pub fn is_single_page_query(query: &Option<String>) -> (r: bool)
    ensures
        r == asks_single_page(opt_chars(*query)),
{
    match query {
        None => false,
        Some(s) => {
            let v = chars_of(s.as_str());
            let n = v.len();
            let mut i: usize = 0;
            let mut found = false;
            while i < n && !found
                invariant
                    n == v@.len(),
                    v@ == s@,
                    i <= n,
                    found ==> contains_text(s@, "cursor=&"@),
                    !found ==> forall|j: int| 0 <= j < i ==> !lit_at(s@, j, "cursor=&"@),
                decreases n - i,
            {
                if lit_at_exec(&v, i, "cursor=&") {
                    found = true;
                }
                i = i + 1;
            }
            if found {
                return true;
            }
            proof {
                assert forall|j: int| !#[trigger] lit_at(s@, j, "cursor=&"@) by {
                    if 0 <= j < n {
                    } else if j >= n {
                        assert(j + "cursor=&"@.len() > s@.len()) by {
                            reveal_strlit("cursor=&");
                        }
                    }
                }
            }
            let m = "cursor=".unicode_len();
            if m <= n {
                let e = lit_at_exec(&v, n - m, "cursor=");
                assert(e == ends_with(s@, "cursor="@));
                e
            } else {
                false
            }
        },
    }
}

/// The text of pairs that are not empty, one after the other.
proof fn lemma_query_text_append(xs: Seq<(Seq<char>, Seq<char>)>, ys: Seq<(Seq<char>, Seq<char>)>)
    requires
        xs.len() > 0,
        ys.len() > 0,
    ensures
        query_text(xs + ys) == query_text(xs) + seq!['&'] + query_text(ys),
    decreases ys.len(),
{
    if ys.len() == 1 {
        assert((xs + ys).drop_last() =~= xs);
    } else {
        lemma_query_text_append(xs, ys.drop_last());
        assert((xs + ys).drop_last() =~= xs + ys.drop_last());
        assert((xs + ys).last() == ys.last());
    }
}

/// Where the pairs hold an empty cursor, their query string asks for a single page.
proof fn lemma_empty_cursor_pair(xs: Seq<(Seq<char>, Seq<char>)>, ys: Seq<(Seq<char>, Seq<char>)>)
    ensures
        asks_single_page(query_string(xs + seq![("cursor"@, Seq::<char>::empty())] + ys)),
{
    reveal_strlit("cursor");
    reveal_strlit("cursor=");
    reveal_strlit("cursor=&");
    let c = seq![("cursor"@, Seq::<char>::empty())];
    let head = xs + c;
    let t = query_text(head);
    assert(pair_text(c[0]) =~= "cursor="@);
    if xs.len() == 0 {
        assert(head =~= c);
        assert(t =~= "cursor="@);
    } else {
        lemma_query_text_append(xs, c);
        assert(t =~= query_text(xs) + seq!['&'] + "cursor="@);
    }
    assert(ends_with(t, "cursor="@)) by {
        assert(t.subrange(t.len() - 7, t.len() as int) =~= "cursor="@);
    }
    if ys.len() == 0 {
        assert(head + ys =~= head);
    } else {
        lemma_query_text_append(head, ys);
        let q = query_text(head + ys);
        assert(q == t + seq!['&'] + query_text(ys));
        assert(lit_at(q, t.len() - 7, "cursor=&"@)) by {
            assert(q.subrange(t.len() - 7, t.len() + 1int) =~= "cursor=&"@);
        }
    }
}

/// Query parameters for output requests.
#[derive(Debug)]
pub struct OutputQueryParameters {
    /// Filters outputs based on the presence of a native token.
    pub has_native_token: Option<bool>,
    /// Filters outputs based on the presence of a specific native token.
    pub native_token: Option<Id>,
    /// Returns outputs that are unlockable by the bech32 address.
    pub unlockable_by_address: Option<Bech32Address>,
    /// The maximum amount of items returned in one call.
    pub page_size: Option<usize>,
    /// Starts the search from the cursor; an empty cursor asks for the first page only.
    pub cursor: Option<String>,
    /// Returns outputs that were created before a certain slot index.
    pub created_before: Option<SlotIndex>,
    /// Returns outputs that were created after a certain slot index.
    pub created_after: Option<SlotIndex>,
}

impl OutputQueryParameters {
    /// The parameters that are set, by name in alphabetical order, with their text.
    pub open spec fn query_pairs(&self) -> Seq<(Seq<char>, Seq<char>)> {
        self.head_pairs() + text_pair("cursor"@, self.cursor) + self.tail_pairs()
    }

    /// The set parameters whose names come before `cursor`, in alphabetical order.
    pub open spec fn head_pairs(&self) -> Seq<(Seq<char>, Seq<char>)> {
        Seq::empty()
            + slot_pair("createdAfter"@, self.created_after)
            + slot_pair("createdBefore"@, self.created_before)
    }

    /// The set parameters whose names come after `cursor`, in alphabetical order.
    pub open spec fn tail_pairs(&self) -> Seq<(Seq<char>, Seq<char>)> {
        Seq::empty()
            + flag_pair("hasNativeToken"@, self.has_native_token)
            + token_pair("nativeToken"@, self.native_token)
            + size_pair("pageSize"@, self.page_size)
            + address_pair("unlockableByAddress"@, self.unlockable_by_address)
    }

    /// No parameter set.
    pub fn new() -> (r: OutputQueryParameters)
        ensures
            r == (OutputQueryParameters {
                has_native_token: None,
                native_token: None,
                unlockable_by_address: None,
                page_size: None,
                cursor: None,
                created_before: None,
                created_after: None,
            }),
    {
        OutputQueryParameters {
            has_native_token: None,
            native_token: None,
            unlockable_by_address: None,
            page_size: None,
            cursor: None,
            created_before: None,
            created_after: None,
        }
    }

    /// Sets `has_native_token`.
    pub fn has_native_token(self, has_native_token: bool) -> (r: OutputQueryParameters)
        ensures
            r == (OutputQueryParameters { has_native_token: Some(has_native_token), ..self }),
    {
        OutputQueryParameters { has_native_token: Some(has_native_token), ..self }
    }

    /// Sets `native_token`.
    pub fn native_token(self, native_token: Id) -> (r: OutputQueryParameters)
        ensures
            r == (OutputQueryParameters { native_token: Some(native_token), ..self }),
    {
        OutputQueryParameters { native_token: Some(native_token), ..self }
    }

    /// Sets `unlockable_by_address`.
    pub fn unlockable_by_address(self, unlockable_by_address: Bech32Address) -> (r: OutputQueryParameters)
        ensures
            r == (OutputQueryParameters { unlockable_by_address: Some(unlockable_by_address), ..self }),
    {
        OutputQueryParameters { unlockable_by_address: Some(unlockable_by_address), ..self }
    }

    /// Sets `page_size`.
    pub fn page_size(self, page_size: usize) -> (r: OutputQueryParameters)
        ensures
            r == (OutputQueryParameters { page_size: Some(page_size), ..self }),
    {
        OutputQueryParameters { page_size: Some(page_size), ..self }
    }

    /// Sets `cursor`.
    pub fn cursor(self, cursor: String) -> (r: OutputQueryParameters)
        ensures
            r == (OutputQueryParameters { cursor: Some(cursor), ..self }),
    {
        OutputQueryParameters { cursor: Some(cursor), ..self }
    }

    /// Sets `created_before`.
    pub fn created_before(self, created_before: SlotIndex) -> (r: OutputQueryParameters)
        ensures
            r == (OutputQueryParameters { created_before: Some(created_before), ..self }),
    {
        OutputQueryParameters { created_before: Some(created_before), ..self }
    }

    /// Sets `created_after`.
    pub fn created_after(self, created_after: SlotIndex) -> (r: OutputQueryParameters)
        ensures
            r == (OutputQueryParameters { created_after: Some(created_after), ..self }),
    {
        OutputQueryParameters { created_after: Some(created_after), ..self }
    }

    /// Replaces the cursor, to ask for the page that it points to.
    pub fn replace_cursor(&mut self, cursor: String)
        ensures
            *final(self) == (OutputQueryParameters { cursor: Some(cursor), ..*old(self) }),
    {
        self.cursor = Some(cursor);
    }

    /// The parameters that are set as `name=value` pairs, by name in alphabetical
    /// order and joined by `&`; nothing where no parameter is set.
    pub fn to_query_string(&self) -> (r: Option<String>)
        ensures
            opt_chars(r) == query_string(self.query_pairs()),
    {
        let mut w = QueryWriter::new();
        w.write_slot("createdAfter", self.created_after);
        w.write_slot("createdBefore", self.created_before);
        w.write_text("cursor", &self.cursor);
        let ghost base = w.pairs@;
        let ghost done: Seq<(Seq<char>, Seq<char>)> = Seq::empty();
        w.write_flag("hasNativeToken", self.has_native_token);
        proof {
            let next = done + flag_pair("hasNativeToken"@, self.has_native_token);
            assert(w.pairs@ =~= base + next);
            done = next;
        }
        w.write_token("nativeToken", &self.native_token);
        proof {
            let next = done + token_pair("nativeToken"@, self.native_token);
            assert(w.pairs@ =~= base + next);
            done = next;
        }
        w.write_size("pageSize", self.page_size);
        proof {
            let next = done + size_pair("pageSize"@, self.page_size);
            assert(w.pairs@ =~= base + next);
            done = next;
        }
        w.write_address("unlockableByAddress", &self.unlockable_by_address);
        proof {
            let next = done + address_pair("unlockableByAddress"@, self.unlockable_by_address);
            assert(w.pairs@ =~= base + next);
            done = next;
        }
        assert(w.pairs@ =~= self.query_pairs());
        w.finish()
    }
    /// An empty cursor asks for a single page: the query string then holds `cursor=`
    /// followed by `&` or by nothing.
    pub proof fn lemma_empty_cursor_asks_single_page(&self)
        requires
            self.cursor matches Some(c) && c@.len() == 0,
        ensures
            asks_single_page(query_string(self.query_pairs())),
    {
        reveal(text_pair);
        assert(self.cursor->0@ =~= Seq::<char>::empty());
        assert(text_pair("cursor"@, self.cursor) =~= seq![("cursor"@, Seq::<char>::empty())]);
        lemma_empty_cursor_pair(self.head_pairs(), self.tail_pairs());
    }
}

impl Default for OutputQueryParameters {
    fn default() -> (r: OutputQueryParameters)
        ensures
            r == (OutputQueryParameters {
                has_native_token: None,
                native_token: None,
                unlockable_by_address: None,
                page_size: None,
                cursor: None,
                created_before: None,
                created_after: None,
            }),
    {
        OutputQueryParameters::new()
    }
}

/// Query parameters for basic output requests.
#[derive(Debug)]
pub struct BasicOutputQueryParameters {
    /// Filters outputs based on the presence of a native token.
    pub has_native_token: Option<bool>,
    /// Filters outputs based on the presence of a specific native token.
    pub native_token: Option<Id>,
    /// Returns outputs that are unlockable by the bech32 address.
    pub unlockable_by_address: Option<Bech32Address>,
    /// Bech32-encoded address that should be searched for.
    pub address: Option<Bech32Address>,
    /// Filters outputs based on the presence of storage deposit return unlock condition.
    pub has_storage_deposit_return: Option<bool>,
    /// Filters outputs based on a specific return address in the storage deposit return unlock condition.
    pub storage_deposit_return_address: Option<Bech32Address>,
    /// Filters outputs based on the presence of expiration unlock condition.
    pub has_expiration: Option<bool>,
    /// Filters outputs based on a specific return address in the expiration unlock condition.
    pub expiration_return_address: Option<Bech32Address>,
    /// Returns outputs that expire before a certain slot index.
    pub expires_before: Option<SlotIndex>,
    /// Returns outputs that expire after a certain slot index.
    pub expires_after: Option<SlotIndex>,
    /// Filters outputs based on the presence of timelock unlock condition.
    pub has_timelock: Option<bool>,
    /// Returns outputs that are timelocked before a certain slot index.
    pub timelocked_before: Option<SlotIndex>,
    /// Returns outputs that are timelocked after a certain slot index.
    pub timelocked_after: Option<SlotIndex>,
    /// Filters outputs based on the presence of validated sender.
    pub sender: Option<Bech32Address>,
    /// Filters outputs based on matching tag.
    pub tag: Option<String>,
    /// The maximum amount of items returned in one call.
    pub page_size: Option<usize>,
    /// Starts the search from the cursor; an empty cursor asks for the first page only.
    pub cursor: Option<String>,
    /// Returns outputs that were created before a certain slot index.
    pub created_before: Option<SlotIndex>,
    /// Returns outputs that were created after a certain slot index.
    pub created_after: Option<SlotIndex>,
}

impl BasicOutputQueryParameters {
    /// The parameters that are set, by name in alphabetical order, with their text.
    pub open spec fn query_pairs(&self) -> Seq<(Seq<char>, Seq<char>)> {
        self.head_pairs() + text_pair("cursor"@, self.cursor) + self.tail_pairs()
    }

    /// The set parameters whose names come before `cursor`, in alphabetical order.
    pub open spec fn head_pairs(&self) -> Seq<(Seq<char>, Seq<char>)> {
        Seq::empty()
            + address_pair("address"@, self.address)
            + slot_pair("createdAfter"@, self.created_after)
            + slot_pair("createdBefore"@, self.created_before)
    }

    /// The set parameters whose names come after `cursor`, in alphabetical order.
    pub open spec fn tail_pairs(&self) -> Seq<(Seq<char>, Seq<char>)> {
        Seq::empty()
            + address_pair("expirationReturnAddress"@, self.expiration_return_address)
            + slot_pair("expiresAfter"@, self.expires_after)
            + slot_pair("expiresBefore"@, self.expires_before)
            + flag_pair("hasExpiration"@, self.has_expiration)
            + flag_pair("hasNativeToken"@, self.has_native_token)
            + flag_pair("hasStorageDepositReturn"@, self.has_storage_deposit_return)
            + flag_pair("hasTimelock"@, self.has_timelock)
            + token_pair("nativeToken"@, self.native_token)
            + size_pair("pageSize"@, self.page_size)
            + address_pair("sender"@, self.sender)
            + address_pair("storageDepositReturnAddress"@, self.storage_deposit_return_address)
            + text_pair("tag"@, self.tag)
            + slot_pair("timelockedAfter"@, self.timelocked_after)
            + slot_pair("timelockedBefore"@, self.timelocked_before)
            + address_pair("unlockableByAddress"@, self.unlockable_by_address)
    }

    /// No parameter set.
    pub fn new() -> (r: BasicOutputQueryParameters)
        ensures
            r == (BasicOutputQueryParameters {
                has_native_token: None,
                native_token: None,
                unlockable_by_address: None,
                address: None,
                has_storage_deposit_return: None,
                storage_deposit_return_address: None,
                has_expiration: None,
                expiration_return_address: None,
                expires_before: None,
                expires_after: None,
                has_timelock: None,
                timelocked_before: None,
                timelocked_after: None,
                sender: None,
                tag: None,
                page_size: None,
                cursor: None,
                created_before: None,
                created_after: None,
            }),
    {
        BasicOutputQueryParameters {
            has_native_token: None,
            native_token: None,
            unlockable_by_address: None,
            address: None,
            has_storage_deposit_return: None,
            storage_deposit_return_address: None,
            has_expiration: None,
            expiration_return_address: None,
            expires_before: None,
            expires_after: None,
            has_timelock: None,
            timelocked_before: None,
            timelocked_after: None,
            sender: None,
            tag: None,
            page_size: None,
            cursor: None,
            created_before: None,
            created_after: None,
        }
    }

    /// Sets `has_native_token`.
    pub fn has_native_token(self, has_native_token: bool) -> (r: BasicOutputQueryParameters)
        ensures
            r == (BasicOutputQueryParameters { has_native_token: Some(has_native_token), ..self }),
    {
        BasicOutputQueryParameters { has_native_token: Some(has_native_token), ..self }
    }

    /// Sets `native_token`.
    pub fn native_token(self, native_token: Id) -> (r: BasicOutputQueryParameters)
        ensures
            r == (BasicOutputQueryParameters { native_token: Some(native_token), ..self }),
    {
        BasicOutputQueryParameters { native_token: Some(native_token), ..self }
    }

    /// Sets `unlockable_by_address`.
    pub fn unlockable_by_address(self, unlockable_by_address: Bech32Address) -> (r: BasicOutputQueryParameters)
        ensures
            r == (BasicOutputQueryParameters { unlockable_by_address: Some(unlockable_by_address), ..self }),
    {
        BasicOutputQueryParameters { unlockable_by_address: Some(unlockable_by_address), ..self }
    }

    /// Sets `address`.
    pub fn address(self, address: Bech32Address) -> (r: BasicOutputQueryParameters)
        ensures
            r == (BasicOutputQueryParameters { address: Some(address), ..self }),
    {
        BasicOutputQueryParameters { address: Some(address), ..self }
    }

    /// Sets `has_storage_deposit_return`.
    pub fn has_storage_deposit_return(self, has_storage_deposit_return: bool) -> (r: BasicOutputQueryParameters)
        ensures
            r == (BasicOutputQueryParameters { has_storage_deposit_return: Some(has_storage_deposit_return), ..self }),
    {
        BasicOutputQueryParameters { has_storage_deposit_return: Some(has_storage_deposit_return), ..self }
    }

    /// Sets `storage_deposit_return_address`.
    pub fn storage_deposit_return_address(self, storage_deposit_return_address: Bech32Address) -> (r: BasicOutputQueryParameters)
        ensures
            r == (BasicOutputQueryParameters { storage_deposit_return_address: Some(storage_deposit_return_address), ..self }),
    {
        BasicOutputQueryParameters { storage_deposit_return_address: Some(storage_deposit_return_address), ..self }
    }

    /// Sets `has_expiration`.
    pub fn has_expiration(self, has_expiration: bool) -> (r: BasicOutputQueryParameters)
        ensures
            r == (BasicOutputQueryParameters { has_expiration: Some(has_expiration), ..self }),
    {
        BasicOutputQueryParameters { has_expiration: Some(has_expiration), ..self }
    }

    /// Sets `expiration_return_address`.
    pub fn expiration_return_address(self, expiration_return_address: Bech32Address) -> (r: BasicOutputQueryParameters)
        ensures
            r == (BasicOutputQueryParameters { expiration_return_address: Some(expiration_return_address), ..self }),
    {
        BasicOutputQueryParameters { expiration_return_address: Some(expiration_return_address), ..self }
    }

    /// Sets `expires_before`.
    pub fn expires_before(self, expires_before: SlotIndex) -> (r: BasicOutputQueryParameters)
        ensures
            r == (BasicOutputQueryParameters { expires_before: Some(expires_before), ..self }),
    {
        BasicOutputQueryParameters { expires_before: Some(expires_before), ..self }
    }

    /// Sets `expires_after`.
    pub fn expires_after(self, expires_after: SlotIndex) -> (r: BasicOutputQueryParameters)
        ensures
            r == (BasicOutputQueryParameters { expires_after: Some(expires_after), ..self }),
    {
        BasicOutputQueryParameters { expires_after: Some(expires_after), ..self }
    }

    /// Sets `has_timelock`.
    pub fn has_timelock(self, has_timelock: bool) -> (r: BasicOutputQueryParameters)
        ensures
            r == (BasicOutputQueryParameters { has_timelock: Some(has_timelock), ..self }),
    {
        BasicOutputQueryParameters { has_timelock: Some(has_timelock), ..self }
    }

    /// Sets `timelocked_before`.
    pub fn timelocked_before(self, timelocked_before: SlotIndex) -> (r: BasicOutputQueryParameters)
        ensures
            r == (BasicOutputQueryParameters { timelocked_before: Some(timelocked_before), ..self }),
    {
        BasicOutputQueryParameters { timelocked_before: Some(timelocked_before), ..self }
    }

    /// Sets `timelocked_after`.
    pub fn timelocked_after(self, timelocked_after: SlotIndex) -> (r: BasicOutputQueryParameters)
        ensures
            r == (BasicOutputQueryParameters { timelocked_after: Some(timelocked_after), ..self }),
    {
        BasicOutputQueryParameters { timelocked_after: Some(timelocked_after), ..self }
    }

    /// Sets `sender`.
    pub fn sender(self, sender: Bech32Address) -> (r: BasicOutputQueryParameters)
        ensures
            r == (BasicOutputQueryParameters { sender: Some(sender), ..self }),
    {
        BasicOutputQueryParameters { sender: Some(sender), ..self }
    }

    /// Sets `tag`.
    pub fn tag(self, tag: String) -> (r: BasicOutputQueryParameters)
        ensures
            r == (BasicOutputQueryParameters { tag: Some(tag), ..self }),
    {
        BasicOutputQueryParameters { tag: Some(tag), ..self }
    }

    /// Sets `page_size`.
    pub fn page_size(self, page_size: usize) -> (r: BasicOutputQueryParameters)
        ensures
            r == (BasicOutputQueryParameters { page_size: Some(page_size), ..self }),
    {
        BasicOutputQueryParameters { page_size: Some(page_size), ..self }
    }

    /// Sets `cursor`.
    pub fn cursor(self, cursor: String) -> (r: BasicOutputQueryParameters)
        ensures
            r == (BasicOutputQueryParameters { cursor: Some(cursor), ..self }),
    {
        BasicOutputQueryParameters { cursor: Some(cursor), ..self }
    }

    /// Sets `created_before`.
    pub fn created_before(self, created_before: SlotIndex) -> (r: BasicOutputQueryParameters)
        ensures
            r == (BasicOutputQueryParameters { created_before: Some(created_before), ..self }),
    {
        BasicOutputQueryParameters { created_before: Some(created_before), ..self }
    }

    /// Sets `created_after`.
    pub fn created_after(self, created_after: SlotIndex) -> (r: BasicOutputQueryParameters)
        ensures
            r == (BasicOutputQueryParameters { created_after: Some(created_after), ..self }),
    {
        BasicOutputQueryParameters { created_after: Some(created_after), ..self }
    }

    /// The parameters that ask for the outputs that `address` alone unlocks: the
    /// address is set, and no expiration, storage deposit return or timelock.
    pub fn only_address_unlock_condition(address: Bech32Address) -> (r: BasicOutputQueryParameters)
        ensures
            r == (BasicOutputQueryParameters {
                has_native_token: None,
                native_token: None,
                unlockable_by_address: None,
                address: Some(address),
                has_storage_deposit_return: Some(false),
                storage_deposit_return_address: None,
                has_expiration: Some(false),
                expiration_return_address: None,
                expires_before: None,
                expires_after: None,
                has_timelock: Some(false),
                timelocked_before: None,
                timelocked_after: None,
                sender: None,
                tag: None,
                page_size: None,
                cursor: None,
                created_before: None,
                created_after: None,
            }),
    {
        BasicOutputQueryParameters::new().address(address).has_expiration(false).has_storage_deposit_return(false).has_timelock(false)
    }

    /// Replaces the cursor, to ask for the page that it points to.
    pub fn replace_cursor(&mut self, cursor: String)
        ensures
            *final(self) == (BasicOutputQueryParameters { cursor: Some(cursor), ..*old(self) }),
    {
        self.cursor = Some(cursor);
    }

    /// The parameters that are set as `name=value` pairs, by name in alphabetical
    /// order and joined by `&`; nothing where no parameter is set.
    #[verifier::rlimit(40)]
    pub fn to_query_string(&self) -> (r: Option<String>)
        ensures
            opt_chars(r) == query_string(self.query_pairs()),
    {
        let mut w = QueryWriter::new();
        w.write_address("address", &self.address);
        w.write_slot("createdAfter", self.created_after);
        w.write_slot("createdBefore", self.created_before);
        w.write_text("cursor", &self.cursor);
        let ghost base = w.pairs@;
        let ghost done: Seq<(Seq<char>, Seq<char>)> = Seq::empty();
        w.write_address("expirationReturnAddress", &self.expiration_return_address);
        proof {
            let next = done + address_pair("expirationReturnAddress"@, self.expiration_return_address);
            assert(w.pairs@ =~= base + next);
            done = next;
        }
        w.write_slot("expiresAfter", self.expires_after);
        proof {
            let next = done + slot_pair("expiresAfter"@, self.expires_after);
            assert(w.pairs@ =~= base + next);
            done = next;
        }
        w.write_slot("expiresBefore", self.expires_before);
        proof {
            let next = done + slot_pair("expiresBefore"@, self.expires_before);
            assert(w.pairs@ =~= base + next);
            done = next;
        }
        w.write_flag("hasExpiration", self.has_expiration);
        proof {
            let next = done + flag_pair("hasExpiration"@, self.has_expiration);
            assert(w.pairs@ =~= base + next);
            done = next;
        }
        w.write_flag("hasNativeToken", self.has_native_token);
        proof {
            let next = done + flag_pair("hasNativeToken"@, self.has_native_token);
            assert(w.pairs@ =~= base + next);
            done = next;
        }
        w.write_flag("hasStorageDepositReturn", self.has_storage_deposit_return);
        proof {
            let next = done + flag_pair("hasStorageDepositReturn"@, self.has_storage_deposit_return);
            assert(w.pairs@ =~= base + next);
            done = next;
        }
        w.write_flag("hasTimelock", self.has_timelock);
        proof {
            let next = done + flag_pair("hasTimelock"@, self.has_timelock);
            assert(w.pairs@ =~= base + next);
            done = next;
        }
        w.write_token("nativeToken", &self.native_token);
        proof {
            let next = done + token_pair("nativeToken"@, self.native_token);
            assert(w.pairs@ =~= base + next);
            done = next;
        }
        w.write_size("pageSize", self.page_size);
        proof {
            let next = done + size_pair("pageSize"@, self.page_size);
            assert(w.pairs@ =~= base + next);
            done = next;
        }
        w.write_address("sender", &self.sender);
        proof {
            let next = done + address_pair("sender"@, self.sender);
            assert(w.pairs@ =~= base + next);
            done = next;
        }
        w.write_address("storageDepositReturnAddress", &self.storage_deposit_return_address);
        proof {
            let next = done + address_pair("storageDepositReturnAddress"@, self.storage_deposit_return_address);
            assert(w.pairs@ =~= base + next);
            done = next;
        }
        w.write_text("tag", &self.tag);
        proof {
            let next = done + text_pair("tag"@, self.tag);
            assert(w.pairs@ =~= base + next);
            done = next;
        }
        w.write_slot("timelockedAfter", self.timelocked_after);
        proof {
            let next = done + slot_pair("timelockedAfter"@, self.timelocked_after);
            assert(w.pairs@ =~= base + next);
            done = next;
        }
        w.write_slot("timelockedBefore", self.timelocked_before);
        proof {
            let next = done + slot_pair("timelockedBefore"@, self.timelocked_before);
            assert(w.pairs@ =~= base + next);
            done = next;
        }
        w.write_address("unlockableByAddress", &self.unlockable_by_address);
        proof {
            let next = done + address_pair("unlockableByAddress"@, self.unlockable_by_address);
            assert(w.pairs@ =~= base + next);
            done = next;
        }
        assert(w.pairs@ =~= self.query_pairs());
        w.finish()
    }
    /// An empty cursor asks for a single page: the query string then holds `cursor=`
    /// followed by `&` or by nothing.
    pub proof fn lemma_empty_cursor_asks_single_page(&self)
        requires
            self.cursor matches Some(c) && c@.len() == 0,
        ensures
            asks_single_page(query_string(self.query_pairs())),
    {
        reveal(text_pair);
        assert(self.cursor->0@ =~= Seq::<char>::empty());
        assert(text_pair("cursor"@, self.cursor) =~= seq![("cursor"@, Seq::<char>::empty())]);
        lemma_empty_cursor_pair(self.head_pairs(), self.tail_pairs());
    }
}

impl Default for BasicOutputQueryParameters {
    fn default() -> (r: BasicOutputQueryParameters)
        ensures
            r == (BasicOutputQueryParameters {
                has_native_token: None,
                native_token: None,
                unlockable_by_address: None,
                address: None,
                has_storage_deposit_return: None,
                storage_deposit_return_address: None,
                has_expiration: None,
                expiration_return_address: None,
                expires_before: None,
                expires_after: None,
                has_timelock: None,
                timelocked_before: None,
                timelocked_after: None,
                sender: None,
                tag: None,
                page_size: None,
                cursor: None,
                created_before: None,
                created_after: None,
            }),
    {
        BasicOutputQueryParameters::new()
    }
}

/// Query parameters for account output requests.
#[derive(Debug)]
pub struct AccountOutputQueryParameters {
    /// Bech32-encoded address that should be searched for.
    pub address: Option<Bech32Address>,
    /// Filters outputs based on bech32-encoded issuer address.
    pub issuer: Option<Bech32Address>,
    /// Filters outputs based on the presence of validated sender.
    pub sender: Option<Bech32Address>,
    /// The maximum amount of items returned in one call.
    pub page_size: Option<usize>,
    /// Starts the search from the cursor; an empty cursor asks for the first page only.
    pub cursor: Option<String>,
    /// Returns outputs that were created before a certain slot index.
    pub created_before: Option<SlotIndex>,
    /// Returns outputs that were created after a certain slot index.
    pub created_after: Option<SlotIndex>,
}

impl AccountOutputQueryParameters {
    /// The parameters that are set, by name in alphabetical order, with their text.
    pub open spec fn query_pairs(&self) -> Seq<(Seq<char>, Seq<char>)> {
        self.head_pairs() + text_pair("cursor"@, self.cursor) + self.tail_pairs()
    }

    /// The set parameters whose names come before `cursor`, in alphabetical order.
    pub open spec fn head_pairs(&self) -> Seq<(Seq<char>, Seq<char>)> {
        Seq::empty()
            + address_pair("address"@, self.address)
            + slot_pair("createdAfter"@, self.created_after)
            + slot_pair("createdBefore"@, self.created_before)
    }

    /// The set parameters whose names come after `cursor`, in alphabetical order.
    pub open spec fn tail_pairs(&self) -> Seq<(Seq<char>, Seq<char>)> {
        Seq::empty()
            + address_pair("issuer"@, self.issuer)
            + size_pair("pageSize"@, self.page_size)
            + address_pair("sender"@, self.sender)
    }

    /// No parameter set.
    pub fn new() -> (r: AccountOutputQueryParameters)
        ensures
            r == (AccountOutputQueryParameters {
                address: None,
                issuer: None,
                sender: None,
                page_size: None,
                cursor: None,
                created_before: None,
                created_after: None,
            }),
    {
        AccountOutputQueryParameters {
            address: None,
            issuer: None,
            sender: None,
            page_size: None,
            cursor: None,
            created_before: None,
            created_after: None,
        }
    }

    /// Sets `address`.
    pub fn address(self, address: Bech32Address) -> (r: AccountOutputQueryParameters)
        ensures
            r == (AccountOutputQueryParameters { address: Some(address), ..self }),
    {
        AccountOutputQueryParameters { address: Some(address), ..self }
    }

    /// Sets `issuer`.
    pub fn issuer(self, issuer: Bech32Address) -> (r: AccountOutputQueryParameters)
        ensures
            r == (AccountOutputQueryParameters { issuer: Some(issuer), ..self }),
    {
        AccountOutputQueryParameters { issuer: Some(issuer), ..self }
    }

    /// Sets `sender`.
    pub fn sender(self, sender: Bech32Address) -> (r: AccountOutputQueryParameters)
        ensures
            r == (AccountOutputQueryParameters { sender: Some(sender), ..self }),
    {
        AccountOutputQueryParameters { sender: Some(sender), ..self }
    }

    /// Sets `page_size`.
    pub fn page_size(self, page_size: usize) -> (r: AccountOutputQueryParameters)
        ensures
            r == (AccountOutputQueryParameters { page_size: Some(page_size), ..self }),
    {
        AccountOutputQueryParameters { page_size: Some(page_size), ..self }
    }

    /// Sets `cursor`.
    pub fn cursor(self, cursor: String) -> (r: AccountOutputQueryParameters)
        ensures
            r == (AccountOutputQueryParameters { cursor: Some(cursor), ..self }),
    {
        AccountOutputQueryParameters { cursor: Some(cursor), ..self }
    }

    /// Sets `created_before`.
    pub fn created_before(self, created_before: SlotIndex) -> (r: AccountOutputQueryParameters)
        ensures
            r == (AccountOutputQueryParameters { created_before: Some(created_before), ..self }),
    {
        AccountOutputQueryParameters { created_before: Some(created_before), ..self }
    }

    /// Sets `created_after`.
    pub fn created_after(self, created_after: SlotIndex) -> (r: AccountOutputQueryParameters)
        ensures
            r == (AccountOutputQueryParameters { created_after: Some(created_after), ..self }),
    {
        AccountOutputQueryParameters { created_after: Some(created_after), ..self }
    }

    /// Replaces the cursor, to ask for the page that it points to.
    pub fn replace_cursor(&mut self, cursor: String)
        ensures
            *final(self) == (AccountOutputQueryParameters { cursor: Some(cursor), ..*old(self) }),
    {
        self.cursor = Some(cursor);
    }

    /// The parameters that are set as `name=value` pairs, by name in alphabetical
    /// order and joined by `&`; nothing where no parameter is set.
    pub fn to_query_string(&self) -> (r: Option<String>)
        ensures
            opt_chars(r) == query_string(self.query_pairs()),
    {
        let mut w = QueryWriter::new();
        w.write_address("address", &self.address);
        w.write_slot("createdAfter", self.created_after);
        w.write_slot("createdBefore", self.created_before);
        w.write_text("cursor", &self.cursor);
        let ghost base = w.pairs@;
        let ghost done: Seq<(Seq<char>, Seq<char>)> = Seq::empty();
        w.write_address("issuer", &self.issuer);
        proof {
            let next = done + address_pair("issuer"@, self.issuer);
            assert(w.pairs@ =~= base + next);
            done = next;
        }
        w.write_size("pageSize", self.page_size);
        proof {
            let next = done + size_pair("pageSize"@, self.page_size);
            assert(w.pairs@ =~= base + next);
            done = next;
        }
        w.write_address("sender", &self.sender);
        proof {
            let next = done + address_pair("sender"@, self.sender);
            assert(w.pairs@ =~= base + next);
            done = next;
        }
        assert(w.pairs@ =~= self.query_pairs());
        w.finish()
    }
    /// An empty cursor asks for a single page: the query string then holds `cursor=`
    /// followed by `&` or by nothing.
    pub proof fn lemma_empty_cursor_asks_single_page(&self)
        requires
            self.cursor matches Some(c) && c@.len() == 0,
        ensures
            asks_single_page(query_string(self.query_pairs())),
    {
        reveal(text_pair);
        assert(self.cursor->0@ =~= Seq::<char>::empty());
        assert(text_pair("cursor"@, self.cursor) =~= seq![("cursor"@, Seq::<char>::empty())]);
        lemma_empty_cursor_pair(self.head_pairs(), self.tail_pairs());
    }
}

impl Default for AccountOutputQueryParameters {
    fn default() -> (r: AccountOutputQueryParameters)
        ensures
            r == (AccountOutputQueryParameters {
                address: None,
                issuer: None,
                sender: None,
                page_size: None,
                cursor: None,
                created_before: None,
                created_after: None,
            }),
    {
        AccountOutputQueryParameters::new()
    }
}

/// Query parameters for anchor output requests.
#[derive(Debug)]
pub struct AnchorOutputQueryParameters {
    /// Returns outputs that are unlockable by the bech32 address.
    pub unlockable_by_address: Option<Bech32Address>,
    /// Filters outputs based on bech32-encoded state controller address.
    pub state_controller: Option<Bech32Address>,
    /// Filters outputs based on bech32-encoded governor address.
    pub governor: Option<Bech32Address>,
    /// Filters outputs based on bech32-encoded issuer address.
    pub issuer: Option<Bech32Address>,
    /// Filters outputs based on the presence of validated sender.
    pub sender: Option<Bech32Address>,
    /// The maximum amount of items returned in one call.
    pub page_size: Option<usize>,
    /// Starts the search from the cursor; an empty cursor asks for the first page only.
    pub cursor: Option<String>,
    /// Returns outputs that were created before a certain slot index.
    pub created_before: Option<SlotIndex>,
    /// Returns outputs that were created after a certain slot index.
    pub created_after: Option<SlotIndex>,
}

impl AnchorOutputQueryParameters {
    /// The parameters that are set, by name in alphabetical order, with their text.
    pub open spec fn query_pairs(&self) -> Seq<(Seq<char>, Seq<char>)> {
        self.head_pairs() + text_pair("cursor"@, self.cursor) + self.tail_pairs()
    }

    /// The set parameters whose names come before `cursor`, in alphabetical order.
    pub open spec fn head_pairs(&self) -> Seq<(Seq<char>, Seq<char>)> {
        Seq::empty()
            + slot_pair("createdAfter"@, self.created_after)
            + slot_pair("createdBefore"@, self.created_before)
    }

    /// The set parameters whose names come after `cursor`, in alphabetical order.
    pub open spec fn tail_pairs(&self) -> Seq<(Seq<char>, Seq<char>)> {
        Seq::empty()
            + address_pair("governor"@, self.governor)
            + address_pair("issuer"@, self.issuer)
            + size_pair("pageSize"@, self.page_size)
            + address_pair("sender"@, self.sender)
            + address_pair("stateController"@, self.state_controller)
            + address_pair("unlockableByAddress"@, self.unlockable_by_address)
    }

    /// No parameter set.
    pub fn new() -> (r: AnchorOutputQueryParameters)
        ensures
            r == (AnchorOutputQueryParameters {
                unlockable_by_address: None,
                state_controller: None,
                governor: None,
                issuer: None,
                sender: None,
                page_size: None,
                cursor: None,
                created_before: None,
                created_after: None,
            }),
    {
        AnchorOutputQueryParameters {
            unlockable_by_address: None,
            state_controller: None,
            governor: None,
            issuer: None,
            sender: None,
            page_size: None,
            cursor: None,
            created_before: None,
            created_after: None,
        }
    }

    /// Sets `unlockable_by_address`.
    pub fn unlockable_by_address(self, unlockable_by_address: Bech32Address) -> (r: AnchorOutputQueryParameters)
        ensures
            r == (AnchorOutputQueryParameters { unlockable_by_address: Some(unlockable_by_address), ..self }),
    {
        AnchorOutputQueryParameters { unlockable_by_address: Some(unlockable_by_address), ..self }
    }

    /// Sets `state_controller`.
    pub fn state_controller(self, state_controller: Bech32Address) -> (r: AnchorOutputQueryParameters)
        ensures
            r == (AnchorOutputQueryParameters { state_controller: Some(state_controller), ..self }),
    {
        AnchorOutputQueryParameters { state_controller: Some(state_controller), ..self }
    }

    /// Sets `governor`.
    pub fn governor(self, governor: Bech32Address) -> (r: AnchorOutputQueryParameters)
        ensures
            r == (AnchorOutputQueryParameters { governor: Some(governor), ..self }),
    {
        AnchorOutputQueryParameters { governor: Some(governor), ..self }
    }

    /// Sets `issuer`.
    pub fn issuer(self, issuer: Bech32Address) -> (r: AnchorOutputQueryParameters)
        ensures
            r == (AnchorOutputQueryParameters { issuer: Some(issuer), ..self }),
    {
        AnchorOutputQueryParameters { issuer: Some(issuer), ..self }
    }

    /// Sets `sender`.
    pub fn sender(self, sender: Bech32Address) -> (r: AnchorOutputQueryParameters)
        ensures
            r == (AnchorOutputQueryParameters { sender: Some(sender), ..self }),
    {
        AnchorOutputQueryParameters { sender: Some(sender), ..self }
    }

    /// Sets `page_size`.
    pub fn page_size(self, page_size: usize) -> (r: AnchorOutputQueryParameters)
        ensures
            r == (AnchorOutputQueryParameters { page_size: Some(page_size), ..self }),
    {
        AnchorOutputQueryParameters { page_size: Some(page_size), ..self }
    }

    /// Sets `cursor`.
    pub fn cursor(self, cursor: String) -> (r: AnchorOutputQueryParameters)
        ensures
            r == (AnchorOutputQueryParameters { cursor: Some(cursor), ..self }),
    {
        AnchorOutputQueryParameters { cursor: Some(cursor), ..self }
    }

    /// Sets `created_before`.
    pub fn created_before(self, created_before: SlotIndex) -> (r: AnchorOutputQueryParameters)
        ensures
            r == (AnchorOutputQueryParameters { created_before: Some(created_before), ..self }),
    {
        AnchorOutputQueryParameters { created_before: Some(created_before), ..self }
    }

    /// Sets `created_after`.
    pub fn created_after(self, created_after: SlotIndex) -> (r: AnchorOutputQueryParameters)
        ensures
            r == (AnchorOutputQueryParameters { created_after: Some(created_after), ..self }),
    {
        AnchorOutputQueryParameters { created_after: Some(created_after), ..self }
    }

    /// Replaces the cursor, to ask for the page that it points to.
    pub fn replace_cursor(&mut self, cursor: String)
        ensures
            *final(self) == (AnchorOutputQueryParameters { cursor: Some(cursor), ..*old(self) }),
    {
        self.cursor = Some(cursor);
    }

    /// The parameters that are set as `name=value` pairs, by name in alphabetical
    /// order and joined by `&`; nothing where no parameter is set.
    pub fn to_query_string(&self) -> (r: Option<String>)
        ensures
            opt_chars(r) == query_string(self.query_pairs()),
    {
        let mut w = QueryWriter::new();
        w.write_slot("createdAfter", self.created_after);
        w.write_slot("createdBefore", self.created_before);
        w.write_text("cursor", &self.cursor);
        let ghost base = w.pairs@;
        let ghost done: Seq<(Seq<char>, Seq<char>)> = Seq::empty();
        w.write_address("governor", &self.governor);
        proof {
            let next = done + address_pair("governor"@, self.governor);
            assert(w.pairs@ =~= base + next);
            done = next;
        }
        w.write_address("issuer", &self.issuer);
        proof {
            let next = done + address_pair("issuer"@, self.issuer);
            assert(w.pairs@ =~= base + next);
            done = next;
        }
        w.write_size("pageSize", self.page_size);
        proof {
            let next = done + size_pair("pageSize"@, self.page_size);
            assert(w.pairs@ =~= base + next);
            done = next;
        }
        w.write_address("sender", &self.sender);
        proof {
            let next = done + address_pair("sender"@, self.sender);
            assert(w.pairs@ =~= base + next);
            done = next;
        }
        w.write_address("stateController", &self.state_controller);
        proof {
            let next = done + address_pair("stateController"@, self.state_controller);
            assert(w.pairs@ =~= base + next);
            done = next;
        }
        w.write_address("unlockableByAddress", &self.unlockable_by_address);
        proof {
            let next = done + address_pair("unlockableByAddress"@, self.unlockable_by_address);
            assert(w.pairs@ =~= base + next);
            done = next;
        }
        assert(w.pairs@ =~= self.query_pairs());
        w.finish()
    }
    /// An empty cursor asks for a single page: the query string then holds `cursor=`
    /// followed by `&` or by nothing.
    pub proof fn lemma_empty_cursor_asks_single_page(&self)
        requires
            self.cursor matches Some(c) && c@.len() == 0,
        ensures
            asks_single_page(query_string(self.query_pairs())),
    {
        reveal(text_pair);
        assert(self.cursor->0@ =~= Seq::<char>::empty());
        assert(text_pair("cursor"@, self.cursor) =~= seq![("cursor"@, Seq::<char>::empty())]);
        lemma_empty_cursor_pair(self.head_pairs(), self.tail_pairs());
    }
}

impl Default for AnchorOutputQueryParameters {
    fn default() -> (r: AnchorOutputQueryParameters)
        ensures
            r == (AnchorOutputQueryParameters {
                unlockable_by_address: None,
                state_controller: None,
                governor: None,
                issuer: None,
                sender: None,
                page_size: None,
                cursor: None,
                created_before: None,
                created_after: None,
            }),
    {
        AnchorOutputQueryParameters::new()
    }
}

/// Query parameters for delegation output requests.
#[derive(Debug)]
pub struct DelegationOutputQueryParameters {
    /// Bech32-encoded address that should be searched for.
    pub address: Option<Bech32Address>,
    /// Filters outputs based on bech32-encoded address of the validator.
    pub validator: Option<Bech32Address>,
    /// The maximum amount of items returned in one call.
    pub page_size: Option<usize>,
    /// Starts the search from the cursor; an empty cursor asks for the first page only.
    pub cursor: Option<String>,
    /// Returns outputs that were created before a certain slot index.
    pub created_before: Option<SlotIndex>,
    /// Returns outputs that were created after a certain slot index.
    pub created_after: Option<SlotIndex>,
}

impl DelegationOutputQueryParameters {
    /// The parameters that are set, by name in alphabetical order, with their text.
    pub open spec fn query_pairs(&self) -> Seq<(Seq<char>, Seq<char>)> {
        self.head_pairs() + text_pair("cursor"@, self.cursor) + self.tail_pairs()
    }

    /// The set parameters whose names come before `cursor`, in alphabetical order.
    pub open spec fn head_pairs(&self) -> Seq<(Seq<char>, Seq<char>)> {
        Seq::empty()
            + address_pair("address"@, self.address)
            + slot_pair("createdAfter"@, self.created_after)
            + slot_pair("createdBefore"@, self.created_before)
    }

    /// The set parameters whose names come after `cursor`, in alphabetical order.
    pub open spec fn tail_pairs(&self) -> Seq<(Seq<char>, Seq<char>)> {
        Seq::empty()
            + size_pair("pageSize"@, self.page_size)
            + address_pair("validator"@, self.validator)
    }

    /// No parameter set.
    pub fn new() -> (r: DelegationOutputQueryParameters)
        ensures
            r == (DelegationOutputQueryParameters {
                address: None,
                validator: None,
                page_size: None,
                cursor: None,
                created_before: None,
                created_after: None,
            }),
    {
        DelegationOutputQueryParameters {
            address: None,
            validator: None,
            page_size: None,
            cursor: None,
            created_before: None,
            created_after: None,
        }
    }

    /// Sets `address`.
    pub fn address(self, address: Bech32Address) -> (r: DelegationOutputQueryParameters)
        ensures
            r == (DelegationOutputQueryParameters { address: Some(address), ..self }),
    {
        DelegationOutputQueryParameters { address: Some(address), ..self }
    }

    /// Sets `validator`.
    pub fn validator(self, validator: Bech32Address) -> (r: DelegationOutputQueryParameters)
        ensures
            r == (DelegationOutputQueryParameters { validator: Some(validator), ..self }),
    {
        DelegationOutputQueryParameters { validator: Some(validator), ..self }
    }

    /// Sets `page_size`.
    pub fn page_size(self, page_size: usize) -> (r: DelegationOutputQueryParameters)
        ensures
            r == (DelegationOutputQueryParameters { page_size: Some(page_size), ..self }),
    {
        DelegationOutputQueryParameters { page_size: Some(page_size), ..self }
    }

    /// Sets `cursor`.
    pub fn cursor(self, cursor: String) -> (r: DelegationOutputQueryParameters)
        ensures
            r == (DelegationOutputQueryParameters { cursor: Some(cursor), ..self }),
    {
        DelegationOutputQueryParameters { cursor: Some(cursor), ..self }
    }

    /// Sets `created_before`.
    pub fn created_before(self, created_before: SlotIndex) -> (r: DelegationOutputQueryParameters)
        ensures
            r == (DelegationOutputQueryParameters { created_before: Some(created_before), ..self }),
    {
        DelegationOutputQueryParameters { created_before: Some(created_before), ..self }
    }

    /// Sets `created_after`.
    pub fn created_after(self, created_after: SlotIndex) -> (r: DelegationOutputQueryParameters)
        ensures
            r == (DelegationOutputQueryParameters { created_after: Some(created_after), ..self }),
    {
        DelegationOutputQueryParameters { created_after: Some(created_after), ..self }
    }

    /// Replaces the cursor, to ask for the page that it points to.
    pub fn replace_cursor(&mut self, cursor: String)
        ensures
            *final(self) == (DelegationOutputQueryParameters { cursor: Some(cursor), ..*old(self) }),
    {
        self.cursor = Some(cursor);
    }

    /// The parameters that are set as `name=value` pairs, by name in alphabetical
    /// order and joined by `&`; nothing where no parameter is set.
    pub fn to_query_string(&self) -> (r: Option<String>)
        ensures
            opt_chars(r) == query_string(self.query_pairs()),
    {
        let mut w = QueryWriter::new();
        w.write_address("address", &self.address);
        w.write_slot("createdAfter", self.created_after);
        w.write_slot("createdBefore", self.created_before);
        w.write_text("cursor", &self.cursor);
        let ghost base = w.pairs@;
        let ghost done: Seq<(Seq<char>, Seq<char>)> = Seq::empty();
        w.write_size("pageSize", self.page_size);
        proof {
            let next = done + size_pair("pageSize"@, self.page_size);
            assert(w.pairs@ =~= base + next);
            done = next;
        }
        w.write_address("validator", &self.validator);
        proof {
            let next = done + address_pair("validator"@, self.validator);
            assert(w.pairs@ =~= base + next);
            done = next;
        }
        assert(w.pairs@ =~= self.query_pairs());
        w.finish()
    }
    /// An empty cursor asks for a single page: the query string then holds `cursor=`
    /// followed by `&` or by nothing.
    pub proof fn lemma_empty_cursor_asks_single_page(&self)
        requires
            self.cursor matches Some(c) && c@.len() == 0,
        ensures
            asks_single_page(query_string(self.query_pairs())),
    {
        reveal(text_pair);
        assert(self.cursor->0@ =~= Seq::<char>::empty());
        assert(text_pair("cursor"@, self.cursor) =~= seq![("cursor"@, Seq::<char>::empty())]);
        lemma_empty_cursor_pair(self.head_pairs(), self.tail_pairs());
    }
}

impl Default for DelegationOutputQueryParameters {
    fn default() -> (r: DelegationOutputQueryParameters)
        ensures
            r == (DelegationOutputQueryParameters {
                address: None,
                validator: None,
                page_size: None,
                cursor: None,
                created_before: None,
                created_after: None,
            }),
    {
        DelegationOutputQueryParameters::new()
    }
}

/// Query parameters for foundry output requests.
#[derive(Debug)]
pub struct FoundryOutputQueryParameters {
    /// Filters outputs based on the presence of a native token.
    pub has_native_token: Option<bool>,
    /// Filters outputs based on the presence of a specific native token.
    pub native_token: Option<Id>,
    /// Filters outputs based on bech32-encoded address of the controlling account.
    pub account: Option<Bech32Address>,
    /// The maximum amount of items returned in one call.
    pub page_size: Option<usize>,
    /// Starts the search from the cursor; an empty cursor asks for the first page only.
    pub cursor: Option<String>,
    /// Returns outputs that were created before a certain slot index.
    pub created_before: Option<SlotIndex>,
    /// Returns outputs that were created after a certain slot index.
    pub created_after: Option<SlotIndex>,
}

impl FoundryOutputQueryParameters {
    /// The parameters that are set, by name in alphabetical order, with their text.
    pub open spec fn query_pairs(&self) -> Seq<(Seq<char>, Seq<char>)> {
        self.head_pairs() + text_pair("cursor"@, self.cursor) + self.tail_pairs()
    }

    /// The set parameters whose names come before `cursor`, in alphabetical order.
    pub open spec fn head_pairs(&self) -> Seq<(Seq<char>, Seq<char>)> {
        Seq::empty()
            + address_pair("account"@, self.account)
            + slot_pair("createdAfter"@, self.created_after)
            + slot_pair("createdBefore"@, self.created_before)
    }

    /// The set parameters whose names come after `cursor`, in alphabetical order.
    pub open spec fn tail_pairs(&self) -> Seq<(Seq<char>, Seq<char>)> {
        Seq::empty()
            + flag_pair("hasNativeToken"@, self.has_native_token)
            + token_pair("nativeToken"@, self.native_token)
            + size_pair("pageSize"@, self.page_size)
    }

    /// No parameter set.
    pub fn new() -> (r: FoundryOutputQueryParameters)
        ensures
            r == (FoundryOutputQueryParameters {
                has_native_token: None,
                native_token: None,
                account: None,
                page_size: None,
                cursor: None,
                created_before: None,
                created_after: None,
            }),
    {
        FoundryOutputQueryParameters {
            has_native_token: None,
            native_token: None,
            account: None,
            page_size: None,
            cursor: None,
            created_before: None,
            created_after: None,
        }
    }

    /// Sets `has_native_token`.
    pub fn has_native_token(self, has_native_token: bool) -> (r: FoundryOutputQueryParameters)
        ensures
            r == (FoundryOutputQueryParameters { has_native_token: Some(has_native_token), ..self }),
    {
        FoundryOutputQueryParameters { has_native_token: Some(has_native_token), ..self }
    }

    /// Sets `native_token`.
    pub fn native_token(self, native_token: Id) -> (r: FoundryOutputQueryParameters)
        ensures
            r == (FoundryOutputQueryParameters { native_token: Some(native_token), ..self }),
    {
        FoundryOutputQueryParameters { native_token: Some(native_token), ..self }
    }

    /// Sets `account`.
    pub fn account(self, account: Bech32Address) -> (r: FoundryOutputQueryParameters)
        ensures
            r == (FoundryOutputQueryParameters { account: Some(account), ..self }),
    {
        FoundryOutputQueryParameters { account: Some(account), ..self }
    }

    /// Sets `page_size`.
    pub fn page_size(self, page_size: usize) -> (r: FoundryOutputQueryParameters)
        ensures
            r == (FoundryOutputQueryParameters { page_size: Some(page_size), ..self }),
    {
        FoundryOutputQueryParameters { page_size: Some(page_size), ..self }
    }

    /// Sets `cursor`.
    pub fn cursor(self, cursor: String) -> (r: FoundryOutputQueryParameters)
        ensures
            r == (FoundryOutputQueryParameters { cursor: Some(cursor), ..self }),
    {
        FoundryOutputQueryParameters { cursor: Some(cursor), ..self }
    }

    /// Sets `created_before`.
    pub fn created_before(self, created_before: SlotIndex) -> (r: FoundryOutputQueryParameters)
        ensures
            r == (FoundryOutputQueryParameters { created_before: Some(created_before), ..self }),
    {
        FoundryOutputQueryParameters { created_before: Some(created_before), ..self }
    }

    /// Sets `created_after`.
    pub fn created_after(self, created_after: SlotIndex) -> (r: FoundryOutputQueryParameters)
        ensures
            r == (FoundryOutputQueryParameters { created_after: Some(created_after), ..self }),
    {
        FoundryOutputQueryParameters { created_after: Some(created_after), ..self }
    }

    /// Replaces the cursor, to ask for the page that it points to.
    pub fn replace_cursor(&mut self, cursor: String)
        ensures
            *final(self) == (FoundryOutputQueryParameters { cursor: Some(cursor), ..*old(self) }),
    {
        self.cursor = Some(cursor);
    }

    /// The parameters that are set as `name=value` pairs, by name in alphabetical
    /// order and joined by `&`; nothing where no parameter is set.
    pub fn to_query_string(&self) -> (r: Option<String>)
        ensures
            opt_chars(r) == query_string(self.query_pairs()),
    {
        let mut w = QueryWriter::new();
        w.write_address("account", &self.account);
        w.write_slot("createdAfter", self.created_after);
        w.write_slot("createdBefore", self.created_before);
        w.write_text("cursor", &self.cursor);
        let ghost base = w.pairs@;
        let ghost done: Seq<(Seq<char>, Seq<char>)> = Seq::empty();
        w.write_flag("hasNativeToken", self.has_native_token);
        proof {
            let next = done + flag_pair("hasNativeToken"@, self.has_native_token);
            assert(w.pairs@ =~= base + next);
            done = next;
        }
        w.write_token("nativeToken", &self.native_token);
        proof {
            let next = done + token_pair("nativeToken"@, self.native_token);
            assert(w.pairs@ =~= base + next);
            done = next;
        }
        w.write_size("pageSize", self.page_size);
        proof {
            let next = done + size_pair("pageSize"@, self.page_size);
            assert(w.pairs@ =~= base + next);
            done = next;
        }
        assert(w.pairs@ =~= self.query_pairs());
        w.finish()
    }
    /// An empty cursor asks for a single page: the query string then holds `cursor=`
    /// followed by `&` or by nothing.
    pub proof fn lemma_empty_cursor_asks_single_page(&self)
        requires
            self.cursor matches Some(c) && c@.len() == 0,
        ensures
            asks_single_page(query_string(self.query_pairs())),
    {
        reveal(text_pair);
        assert(self.cursor->0@ =~= Seq::<char>::empty());
        assert(text_pair("cursor"@, self.cursor) =~= seq![("cursor"@, Seq::<char>::empty())]);
        lemma_empty_cursor_pair(self.head_pairs(), self.tail_pairs());
    }
}

impl Default for FoundryOutputQueryParameters {
    fn default() -> (r: FoundryOutputQueryParameters)
        ensures
            r == (FoundryOutputQueryParameters {
                has_native_token: None,
                native_token: None,
                account: None,
                page_size: None,
                cursor: None,
                created_before: None,
                created_after: None,
            }),
    {
        FoundryOutputQueryParameters::new()
    }
}

/// Query parameters for nft output requests.
#[derive(Debug)]
pub struct NftOutputQueryParameters {
    /// Returns outputs that are unlockable by the bech32 address.
    pub unlockable_by_address: Option<Bech32Address>,
    /// Bech32-encoded address that should be searched for.
    pub address: Option<Bech32Address>,
    /// Filters outputs based on the presence of storage deposit return unlock condition.
    pub has_storage_deposit_return: Option<bool>,
    /// Filters outputs based on a specific return address in the storage deposit return unlock condition.
    pub storage_deposit_return_address: Option<Bech32Address>,
    /// Filters outputs based on the presence of expiration unlock condition.
    pub has_expiration: Option<bool>,
    /// Filters outputs based on a specific return address in the expiration unlock condition.
    pub expiration_return_address: Option<Bech32Address>,
    /// Returns outputs that expire before a certain slot index.
    pub expires_before: Option<SlotIndex>,
    /// Returns outputs that expire after a certain slot index.
    pub expires_after: Option<SlotIndex>,
    /// Filters outputs based on the presence of timelock unlock condition.
    pub has_timelock: Option<bool>,
    /// Returns outputs that are timelocked before a certain slot index.
    pub timelocked_before: Option<SlotIndex>,
    /// Returns outputs that are timelocked after a certain slot index.
    pub timelocked_after: Option<SlotIndex>,
    /// Filters outputs based on bech32-encoded issuer address.
    pub issuer: Option<Bech32Address>,
    /// Filters outputs based on the presence of validated sender.
    pub sender: Option<Bech32Address>,
    /// Filters outputs based on matching tag.
    pub tag: Option<String>,
    /// The maximum amount of items returned in one call.
    pub page_size: Option<usize>,
    /// Starts the search from the cursor; an empty cursor asks for the first page only.
    pub cursor: Option<String>,
    /// Returns outputs that were created before a certain slot index.
    pub created_before: Option<SlotIndex>,
    /// Returns outputs that were created after a certain slot index.
    pub created_after: Option<SlotIndex>,
}

impl NftOutputQueryParameters {
    /// The parameters that are set, by name in alphabetical order, with their text.
    pub open spec fn query_pairs(&self) -> Seq<(Seq<char>, Seq<char>)> {
        self.head_pairs() + text_pair("cursor"@, self.cursor) + self.tail_pairs()
    }

    /// The set parameters whose names come before `cursor`, in alphabetical order.
    pub open spec fn head_pairs(&self) -> Seq<(Seq<char>, Seq<char>)> {
        Seq::empty()
            + address_pair("address"@, self.address)
            + slot_pair("createdAfter"@, self.created_after)
            + slot_pair("createdBefore"@, self.created_before)
    }

    /// The set parameters whose names come after `cursor`, in alphabetical order.
    pub open spec fn tail_pairs(&self) -> Seq<(Seq<char>, Seq<char>)> {
        Seq::empty()
            + address_pair("expirationReturnAddress"@, self.expiration_return_address)
            + slot_pair("expiresAfter"@, self.expires_after)
            + slot_pair("expiresBefore"@, self.expires_before)
            + flag_pair("hasExpiration"@, self.has_expiration)
            + flag_pair("hasStorageDepositReturn"@, self.has_storage_deposit_return)
            + flag_pair("hasTimelock"@, self.has_timelock)
            + address_pair("issuer"@, self.issuer)
            + size_pair("pageSize"@, self.page_size)
            + address_pair("sender"@, self.sender)
            + address_pair("storageDepositReturnAddress"@, self.storage_deposit_return_address)
            + text_pair("tag"@, self.tag)
            + slot_pair("timelockedAfter"@, self.timelocked_after)
            + slot_pair("timelockedBefore"@, self.timelocked_before)
            + address_pair("unlockableByAddress"@, self.unlockable_by_address)
    }

    /// No parameter set.
    pub fn new() -> (r: NftOutputQueryParameters)
        ensures
            r == (NftOutputQueryParameters {
                unlockable_by_address: None,
                address: None,
                has_storage_deposit_return: None,
                storage_deposit_return_address: None,
                has_expiration: None,
                expiration_return_address: None,
                expires_before: None,
                expires_after: None,
                has_timelock: None,
                timelocked_before: None,
                timelocked_after: None,
                issuer: None,
                sender: None,
                tag: None,
                page_size: None,
                cursor: None,
                created_before: None,
                created_after: None,
            }),
    {
        NftOutputQueryParameters {
            unlockable_by_address: None,
            address: None,
            has_storage_deposit_return: None,
            storage_deposit_return_address: None,
            has_expiration: None,
            expiration_return_address: None,
            expires_before: None,
            expires_after: None,
            has_timelock: None,
            timelocked_before: None,
            timelocked_after: None,
            issuer: None,
            sender: None,
            tag: None,
            page_size: None,
            cursor: None,
            created_before: None,
            created_after: None,
        }
    }

    /// Sets `unlockable_by_address`.
    pub fn unlockable_by_address(self, unlockable_by_address: Bech32Address) -> (r: NftOutputQueryParameters)
        ensures
            r == (NftOutputQueryParameters { unlockable_by_address: Some(unlockable_by_address), ..self }),
    {
        NftOutputQueryParameters { unlockable_by_address: Some(unlockable_by_address), ..self }
    }

    /// Sets `address`.
    pub fn address(self, address: Bech32Address) -> (r: NftOutputQueryParameters)
        ensures
            r == (NftOutputQueryParameters { address: Some(address), ..self }),
    {
        NftOutputQueryParameters { address: Some(address), ..self }
    }

    /// Sets `has_storage_deposit_return`.
    pub fn has_storage_deposit_return(self, has_storage_deposit_return: bool) -> (r: NftOutputQueryParameters)
        ensures
            r == (NftOutputQueryParameters { has_storage_deposit_return: Some(has_storage_deposit_return), ..self }),
    {
        NftOutputQueryParameters { has_storage_deposit_return: Some(has_storage_deposit_return), ..self }
    }

    /// Sets `storage_deposit_return_address`.
    pub fn storage_deposit_return_address(self, storage_deposit_return_address: Bech32Address) -> (r: NftOutputQueryParameters)
        ensures
            r == (NftOutputQueryParameters { storage_deposit_return_address: Some(storage_deposit_return_address), ..self }),
    {
        NftOutputQueryParameters { storage_deposit_return_address: Some(storage_deposit_return_address), ..self }
    }

    /// Sets `has_expiration`.
    pub fn has_expiration(self, has_expiration: bool) -> (r: NftOutputQueryParameters)
        ensures
            r == (NftOutputQueryParameters { has_expiration: Some(has_expiration), ..self }),
    {
        NftOutputQueryParameters { has_expiration: Some(has_expiration), ..self }
    }

    /// Sets `expiration_return_address`.
    pub fn expiration_return_address(self, expiration_return_address: Bech32Address) -> (r: NftOutputQueryParameters)
        ensures
            r == (NftOutputQueryParameters { expiration_return_address: Some(expiration_return_address), ..self }),
    {
        NftOutputQueryParameters { expiration_return_address: Some(expiration_return_address), ..self }
    }

    /// Sets `expires_before`.
    pub fn expires_before(self, expires_before: SlotIndex) -> (r: NftOutputQueryParameters)
        ensures
            r == (NftOutputQueryParameters { expires_before: Some(expires_before), ..self }),
    {
        NftOutputQueryParameters { expires_before: Some(expires_before), ..self }
    }

    /// Sets `expires_after`.
    pub fn expires_after(self, expires_after: SlotIndex) -> (r: NftOutputQueryParameters)
        ensures
            r == (NftOutputQueryParameters { expires_after: Some(expires_after), ..self }),
    {
        NftOutputQueryParameters { expires_after: Some(expires_after), ..self }
    }

    /// Sets `has_timelock`.
    pub fn has_timelock(self, has_timelock: bool) -> (r: NftOutputQueryParameters)
        ensures
            r == (NftOutputQueryParameters { has_timelock: Some(has_timelock), ..self }),
    {
        NftOutputQueryParameters { has_timelock: Some(has_timelock), ..self }
    }

    /// Sets `timelocked_before`.
    pub fn timelocked_before(self, timelocked_before: SlotIndex) -> (r: NftOutputQueryParameters)
        ensures
            r == (NftOutputQueryParameters { timelocked_before: Some(timelocked_before), ..self }),
    {
        NftOutputQueryParameters { timelocked_before: Some(timelocked_before), ..self }
    }

    /// Sets `timelocked_after`.
    pub fn timelocked_after(self, timelocked_after: SlotIndex) -> (r: NftOutputQueryParameters)
        ensures
            r == (NftOutputQueryParameters { timelocked_after: Some(timelocked_after), ..self }),
    {
        NftOutputQueryParameters { timelocked_after: Some(timelocked_after), ..self }
    }

    /// Sets `issuer`.
    pub fn issuer(self, issuer: Bech32Address) -> (r: NftOutputQueryParameters)
        ensures
            r == (NftOutputQueryParameters { issuer: Some(issuer), ..self }),
    {
        NftOutputQueryParameters { issuer: Some(issuer), ..self }
    }

    /// Sets `sender`.
    pub fn sender(self, sender: Bech32Address) -> (r: NftOutputQueryParameters)
        ensures
            r == (NftOutputQueryParameters { sender: Some(sender), ..self }),
    {
        NftOutputQueryParameters { sender: Some(sender), ..self }
    }

    /// Sets `tag`.
    pub fn tag(self, tag: String) -> (r: NftOutputQueryParameters)
        ensures
            r == (NftOutputQueryParameters { tag: Some(tag), ..self }),
    {
        NftOutputQueryParameters { tag: Some(tag), ..self }
    }

    /// Sets `page_size`.
    pub fn page_size(self, page_size: usize) -> (r: NftOutputQueryParameters)
        ensures
            r == (NftOutputQueryParameters { page_size: Some(page_size), ..self }),
    {
        NftOutputQueryParameters { page_size: Some(page_size), ..self }
    }

    /// Sets `cursor`.
    pub fn cursor(self, cursor: String) -> (r: NftOutputQueryParameters)
        ensures
            r == (NftOutputQueryParameters { cursor: Some(cursor), ..self }),
    {
        NftOutputQueryParameters { cursor: Some(cursor), ..self }
    }

    /// Sets `created_before`.
    pub fn created_before(self, created_before: SlotIndex) -> (r: NftOutputQueryParameters)
        ensures
            r == (NftOutputQueryParameters { created_before: Some(created_before), ..self }),
    {
        NftOutputQueryParameters { created_before: Some(created_before), ..self }
    }

    /// Sets `created_after`.
    pub fn created_after(self, created_after: SlotIndex) -> (r: NftOutputQueryParameters)
        ensures
            r == (NftOutputQueryParameters { created_after: Some(created_after), ..self }),
    {
        NftOutputQueryParameters { created_after: Some(created_after), ..self }
    }

    /// The parameters that ask for the outputs that `address` alone unlocks: the
    /// address is set, and no expiration, storage deposit return or timelock.
    pub fn only_address_unlock_condition(address: Bech32Address) -> (r: NftOutputQueryParameters)
        ensures
            r == (NftOutputQueryParameters {
                unlockable_by_address: None,
                address: Some(address),
                has_storage_deposit_return: Some(false),
                storage_deposit_return_address: None,
                has_expiration: Some(false),
                expiration_return_address: None,
                expires_before: None,
                expires_after: None,
                has_timelock: Some(false),
                timelocked_before: None,
                timelocked_after: None,
                issuer: None,
                sender: None,
                tag: None,
                page_size: None,
                cursor: None,
                created_before: None,
                created_after: None,
            }),
    {
        NftOutputQueryParameters::new().address(address).has_expiration(false).has_storage_deposit_return(false).has_timelock(false)
    }

    /// Replaces the cursor, to ask for the page that it points to.
    pub fn replace_cursor(&mut self, cursor: String)
        ensures
            *final(self) == (NftOutputQueryParameters { cursor: Some(cursor), ..*old(self) }),
    {
        self.cursor = Some(cursor);
    }

    /// The parameters that are set as `name=value` pairs, by name in alphabetical
    /// order and joined by `&`; nothing where no parameter is set.
    #[verifier::rlimit(40)]
    pub fn to_query_string(&self) -> (r: Option<String>)
        ensures
            opt_chars(r) == query_string(self.query_pairs()),
    {
        let mut w = QueryWriter::new();
        w.write_address("address", &self.address);
        w.write_slot("createdAfter", self.created_after);
        w.write_slot("createdBefore", self.created_before);
        w.write_text("cursor", &self.cursor);
        let ghost base = w.pairs@;
        let ghost done: Seq<(Seq<char>, Seq<char>)> = Seq::empty();
        w.write_address("expirationReturnAddress", &self.expiration_return_address);
        proof {
            let next = done + address_pair("expirationReturnAddress"@, self.expiration_return_address);
            assert(w.pairs@ =~= base + next);
            done = next;
        }
        w.write_slot("expiresAfter", self.expires_after);
        proof {
            let next = done + slot_pair("expiresAfter"@, self.expires_after);
            assert(w.pairs@ =~= base + next);
            done = next;
        }
        w.write_slot("expiresBefore", self.expires_before);
        proof {
            let next = done + slot_pair("expiresBefore"@, self.expires_before);
            assert(w.pairs@ =~= base + next);
            done = next;
        }
        w.write_flag("hasExpiration", self.has_expiration);
        proof {
            let next = done + flag_pair("hasExpiration"@, self.has_expiration);
            assert(w.pairs@ =~= base + next);
            done = next;
        }
        w.write_flag("hasStorageDepositReturn", self.has_storage_deposit_return);
        proof {
            let next = done + flag_pair("hasStorageDepositReturn"@, self.has_storage_deposit_return);
            assert(w.pairs@ =~= base + next);
            done = next;
        }
        w.write_flag("hasTimelock", self.has_timelock);
        proof {
            let next = done + flag_pair("hasTimelock"@, self.has_timelock);
            assert(w.pairs@ =~= base + next);
            done = next;
        }
        w.write_address("issuer", &self.issuer);
        proof {
            let next = done + address_pair("issuer"@, self.issuer);
            assert(w.pairs@ =~= base + next);
            done = next;
        }
        w.write_size("pageSize", self.page_size);
        proof {
            let next = done + size_pair("pageSize"@, self.page_size);
            assert(w.pairs@ =~= base + next);
            done = next;
        }
        w.write_address("sender", &self.sender);
        proof {
            let next = done + address_pair("sender"@, self.sender);
            assert(w.pairs@ =~= base + next);
            done = next;
        }
        w.write_address("storageDepositReturnAddress", &self.storage_deposit_return_address);
        proof {
            let next = done + address_pair("storageDepositReturnAddress"@, self.storage_deposit_return_address);
            assert(w.pairs@ =~= base + next);
            done = next;
        }
        w.write_text("tag", &self.tag);
        proof {
            let next = done + text_pair("tag"@, self.tag);
            assert(w.pairs@ =~= base + next);
            done = next;
        }
        w.write_slot("timelockedAfter", self.timelocked_after);
        proof {
            let next = done + slot_pair("timelockedAfter"@, self.timelocked_after);
            assert(w.pairs@ =~= base + next);
            done = next;
        }
        w.write_slot("timelockedBefore", self.timelocked_before);
        proof {
            let next = done + slot_pair("timelockedBefore"@, self.timelocked_before);
            assert(w.pairs@ =~= base + next);
            done = next;
        }
        w.write_address("unlockableByAddress", &self.unlockable_by_address);
        proof {
            let next = done + address_pair("unlockableByAddress"@, self.unlockable_by_address);
            assert(w.pairs@ =~= base + next);
            done = next;
        }
        assert(w.pairs@ =~= self.query_pairs());
        w.finish()
    }
    /// An empty cursor asks for a single page: the query string then holds `cursor=`
    /// followed by `&` or by nothing.
    pub proof fn lemma_empty_cursor_asks_single_page(&self)
        requires
            self.cursor matches Some(c) && c@.len() == 0,
        ensures
            asks_single_page(query_string(self.query_pairs())),
    {
        reveal(text_pair);
        assert(self.cursor->0@ =~= Seq::<char>::empty());
        assert(text_pair("cursor"@, self.cursor) =~= seq![("cursor"@, Seq::<char>::empty())]);
        lemma_empty_cursor_pair(self.head_pairs(), self.tail_pairs());
    }
}

impl Default for NftOutputQueryParameters {
    fn default() -> (r: NftOutputQueryParameters)
        ensures
            r == (NftOutputQueryParameters {
                unlockable_by_address: None,
                address: None,
                has_storage_deposit_return: None,
                storage_deposit_return_address: None,
                has_expiration: None,
                expiration_return_address: None,
                expires_before: None,
                expires_after: None,
                has_timelock: None,
                timelocked_before: None,
                timelocked_after: None,
                issuer: None,
                sender: None,
                tag: None,
                page_size: None,
                cursor: None,
                created_before: None,
                created_after: None,
            }),
    {
        NftOutputQueryParameters::new()
    }
}

/// One page of output ids from an indexer, or the pages joined so far: the slot the
/// indexer had committed, the page size, the cursor of the next page and the output ids.
#[derive(Debug)]
pub struct OutputIdsResponse {
    pub committed_slot: SlotIndex,
    pub page_size: usize,
    pub cursor: Option<String>,
    pub items: Vec<OutputId>,
}

impl OutputIdsResponse {
    /// The joined response before any page: committed slot 0, page size 1000, no cursor
    /// and no output ids.
    pub fn new() -> (r: OutputIdsResponse)
        ensures
            r.committed_slot == SlotIndex(0),
            r.page_size == 1000,
            r.cursor is None,
            r.items@.len() == 0,
    {
        OutputIdsResponse { committed_slot: SlotIndex(0), page_size: 1000, cursor: None, items: Vec::new() }
    }

    /// Joins one more page: the committed slot, page size and cursor become the page's and
    /// its output ids follow those joined so far. Returns the cursor of the next page to
    /// ask for, none where this page was the last.
    pub fn join_page(&mut self, page: OutputIdsResponse) -> (r: Option<String>)
        ensures
            final(self).committed_slot == page.committed_slot,
            final(self).page_size == page.page_size,
            opt_chars(final(self).cursor) == opt_chars(page.cursor),
            final(self).items@ == old(self).items@ + page.items@,
            opt_chars(r) == opt_chars(page.cursor),
    {
        let OutputIdsResponse { committed_slot, page_size, cursor, items } = page;
        let mut items = items;
        self.committed_slot = committed_slot;
        self.page_size = page_size;
        self.items.append(&mut items);
        let next = match &cursor {
            Some(c) => Some(c.clone()),
            None => None,
        };
        self.cursor = cursor;
        next
    }
}

} // verus!
