//! Human-readable parts and bech32 encoded addresses.

use vstd::prelude::*;

use crate::ledger::{Address, AddressKind, AddressV, Id};

verus! {

/// Whether `s` is a valid human-readable part: 1 to 83 visible ASCII characters that do
/// not mix lower and upper case.
pub open spec fn is_valid_hrp(s: Seq<char>) -> bool {
    &&& 1 <= s.len() <= 83
    &&& forall|i: int| 0 <= i < s.len() ==> '!' <= #[trigger] s[i] && s[i] <= '~'
    &&& !((exists|i: int| 0 <= i < s.len() && 'a' <= #[trigger] s[i] && s[i] <= 'z') && (exists|
        j: int,
    | 0 <= j < s.len() && 'A' <= #[trigger] s[j] && s[j] <= 'Z'))
}

/// Parses a human-readable part with `bech32::Hrp::parse`.
/// Trusted: the call succeeds exactly on the parts that `is_valid_hrp` accepts (the source
/// rejects an empty part, more than 83 bytes, a non-ASCII character, a byte outside
/// 33..=126 and mixed case), and `as_str` gives the characters back as they were given.
#[verifier::external_body]
fn parse_hrp(s: &str) -> (r: Option<String>)
    ensures
        r is Some <==> is_valid_hrp(s@),
        r matches Some(t) ==> t@ == s@,
{
    match bech32::Hrp::parse(s) {
        Ok(h) => Some(h.as_str().to_string()),
        Err(_) => None,
    }
}

/// The errors of parsing human-readable parts and bech32 addresses.
#[derive(Clone, Copy, Debug, PartialEq, Eq, Structural)]
pub enum Bech32Error {
    /// The human-readable part is not valid.
    InvalidHrp,
    /// The text is not a bech32 string with a valid checksum.
    InvalidBech32,
    /// The encoded bytes are not a packed address.
    InvalidAddress,
}

/// The human-readable part of a bech32 string, such as `iota` or `rms`.
#[derive(Debug)]
pub struct Hrp {
    text: String,
}

impl View for Hrp {
    type V = Seq<char>;

    closed spec fn view(&self) -> Seq<char> {
        self.text@
    }
}

impl Hrp {
    #[verifier::type_invariant]
    spec fn inv(self) -> bool {
        is_valid_hrp(self.text@)
    }

    /// Parses a human-readable part.
    pub fn parse(s: &str) -> (r: Result<Hrp, Bech32Error>)
        ensures
            is_valid_hrp(s@) ==> (r matches Ok(h) && h@ == s@),
            !is_valid_hrp(s@) ==> r == Err::<Hrp, Bech32Error>(Bech32Error::InvalidHrp),
    {
        match parse_hrp(s) {
            Some(text) => Ok(Hrp { text }),
            None => Err(Bech32Error::InvalidHrp),
        }
    }

    /// The characters of the part.
    pub fn as_str(&self) -> (r: &str)
        ensures
            r@ == self@,
    {
        self.text.as_str()
    }

    /// The IOTA mainnet part, `iota`.
    pub fn iota() -> (h: Hrp)
        ensures
            h@ == "iota"@,
    {
        let text = String::from_str("iota");
        proof {
            reveal_strlit("iota");
            assert('a' <= text@[0] && text@[0] <= 'z');
        }
        Hrp { text }
    }

    /// The IOTA testnet part, `atoi`.
    pub fn iota_testnet() -> (h: Hrp)
        ensures
            h@ == "atoi"@,
    {
        let text = String::from_str("atoi");
        proof {
            reveal_strlit("atoi");
            assert('a' <= text@[0] && text@[0] <= 'z');
        }
        Hrp { text }
    }

    /// The Shimmer mainnet part, `smr`.
    pub fn shimmer() -> (h: Hrp)
        ensures
            h@ == "smr"@,
    {
        let text = String::from_str("smr");
        proof {
            reveal_strlit("smr");
            assert('a' <= text@[0] && text@[0] <= 'z');
        }
        Hrp { text }
    }

    /// The Shimmer testnet part, `rms`.
    pub fn shimmer_testnet() -> (h: Hrp)
        ensures
            h@ == "rms"@,
    {
        let text = String::from_str("rms");
        proof {
            reveal_strlit("rms");
            assert('a' <= text@[0] && text@[0] <= 'z');
        }
        Hrp { text }
    }
}

impl Clone for Hrp {
    fn clone(&self) -> (r: Self)
        ensures
            r@ == self@,
    {
        proof {
            use_type_invariant(self);
        }
        Hrp { text: self.text.clone() }
    }
}

/// The code of `c` with ASCII upper case letters taken as lower case.
pub open spec fn lower_code(c: char) -> u32 {
    if 'A' <= c && c <= 'Z' {
        (c as u32 + 32) as u32
    } else {
        c as u32
    }
}

/// Whether two human-readable parts are equal, regardless of case.
pub open spec fn same_hrp(a: Seq<char>, b: Seq<char>) -> bool {
    a.len() == b.len() && forall|i: int| 0 <= i < a.len() ==> lower_code(#[trigger] a[i]) == lower_code(b[i])
}

fn lower_code_exec(c: char) -> (r: u32)
    ensures
        r == lower_code(c),
{
    let x = c as u32;
    if 'A' <= c && c <= 'Z' {
        x + 32
    } else {
        x
    }
}

impl Hrp {
    /// Whether both parts are equal, regardless of case.
    pub fn same(&self, other: &Hrp) -> (r: bool)
        ensures
            r == same_hrp(self@, other@),
    {
        let a = self.text.as_str();
        let b = other.text.as_str();
        let n = a.unicode_len();
        if n != b.unicode_len() {
            return false;
        }
        let mut i: usize = 0;
        while i < n
            invariant
                n == a@.len(),
                n == b@.len(),
                a@ == self@,
                b@ == other@,
                i <= n,
                forall|j: int| 0 <= j < i ==> lower_code(#[trigger] a@[j]) == lower_code(b@[j]),
            decreases n - i,
        {
            if lower_code_exec(a.get_char(i)) != lower_code_exec(b.get_char(i)) {
                return false;
            }
            i = i + 1;
        }
        true
    }
}

/// The parts of a refused comparison: the provided part and the expected one.
#[derive(Debug)]
pub struct Bech32HrpMismatch {
    pub provided: String,
    pub expected: String,
}

/// Checks that the provided part is the expected one of the network, regardless of case.
pub fn bech32_hrp_matches(provided: &Hrp, expected: &Hrp) -> (r: Result<(), Bech32HrpMismatch>)
    ensures
        same_hrp(provided@, expected@) ==> r is Ok,
        !same_hrp(provided@, expected@) ==> (r matches Err(e) && e.provided@ == provided@
            && e.expected@ == expected@),
{
    if provided.same(expected) {
        Ok(())
    } else {
        Err(
            Bech32HrpMismatch {
                provided: String::from_str(provided.as_str()),
                expected: String::from_str(expected.as_str()),
            },
        )
    }
}

/// The byte that announces an address of kind `k` in its packed form.
pub open spec fn kind_byte(k: AddressKind) -> u8 {
    match k {
        AddressKind::Ed25519 => 0u8,
        AddressKind::Account => 8u8,
        AddressKind::Nft => 16u8,
        AddressKind::Anchor => 24u8,
        AddressKind::ImplicitAccountCreation => 32u8,
    }
}

/// The kind that the byte `b` announces, if any.
pub open spec fn kind_of_byte(b: u8) -> Option<AddressKind> {
    if b == 0 {
        Some(AddressKind::Ed25519)
    } else if b == 8 {
        Some(AddressKind::Account)
    } else if b == 16 {
        Some(AddressKind::Nft)
    } else if b == 24 {
        Some(AddressKind::Anchor)
    } else if b == 32 {
        Some(AddressKind::ImplicitAccountCreation)
    } else {
        None
    }
}

/// The byte that announces a restricted address.
pub open spec fn restricted_byte() -> u8 {
    48u8
}

/// The packed form of an address: its kind byte and its identifier; a restricted
/// address is announced by its own byte and ends with an empty capability list.
pub open spec fn packed_address(a: AddressV) -> Seq<u8> {
    if a.restricted {
        seq![restricted_byte(), kind_byte(a.kind)] + a.id + seq![0u8]
    } else {
        seq![kind_byte(a.kind)] + a.id
    }
}

/// The address whose packed form is `b`, if any.
pub open spec fn unpacked_address(b: Seq<u8>) -> Option<AddressV> {
    if b.len() == 33 && kind_of_byte(b[0]) is Some {
        Some(AddressV { kind: kind_of_byte(b[0])->0, id: b.subrange(1, 33), restricted: false })
    } else if b.len() == 35 && b[0] == restricted_byte() && kind_of_byte(b[1]) is Some && b[34]
        == 0 {
        Some(AddressV { kind: kind_of_byte(b[1])->0, id: b.subrange(2, 34), restricted: true })
    } else {
        None
    }
}

/// Unpacking gives back the packed address.
pub proof fn lemma_unpack_packed(a: AddressV)
    requires
        a.id.len() == 32,
    ensures
        unpacked_address(packed_address(a)) == Some(a),
{
    let p = packed_address(a);
    if a.restricted {
        assert(p.subrange(2, 34) =~= a.id);
    } else {
        assert(p.subrange(1, 33) =~= a.id);
    }
}

fn kind_byte_exec(k: AddressKind) -> (b: u8)
    ensures
        b == kind_byte(k),
{
    match k {
        AddressKind::Ed25519 => 0u8,
        AddressKind::Account => 8u8,
        AddressKind::Nft => 16u8,
        AddressKind::Anchor => 24u8,
        AddressKind::ImplicitAccountCreation => 32u8,
    }
}

fn kind_of_byte_exec(b: u8) -> (r: Option<AddressKind>)
    ensures
        r == kind_of_byte(b),
{
    if b == 0 {
        Some(AddressKind::Ed25519)
    } else if b == 8 {
        Some(AddressKind::Account)
    } else if b == 16 {
        Some(AddressKind::Nft)
    } else if b == 24 {
        Some(AddressKind::Anchor)
    } else if b == 32 {
        Some(AddressKind::ImplicitAccountCreation)
    } else {
        None
    }
}

/// Appends the bytes of `src` from `lo` to `hi` to `dst`.
fn extend_range(dst: &mut Vec<u8>, src: &Vec<u8>, lo: usize, hi: usize)
    requires
        lo <= hi <= src@.len(),
    ensures
        final(dst)@ == old(dst)@ + src@.subrange(lo as int, hi as int),
{
    let mut i = lo;
    while i < hi
        invariant
            lo <= i <= hi,
            hi <= src@.len(),
            dst@ == old(dst)@ + src@.subrange(lo as int, i as int),
        decreases hi - i,
    {
        dst.push(src[i]);
        i = i + 1;
        assert(dst@ =~= old(dst)@ + src@.subrange(lo as int, i as int));
    }
}

/// Packs an address.
pub fn pack_address(a: &Address) -> (r: Vec<u8>)
    ensures
        r@ == packed_address(a@),
{
    let mut r: Vec<u8> = Vec::new();
    if a.restricted {
        r.push(48u8);
    }
    r.push(kind_byte_exec(a.kind));
    let n = a.id.bytes.len();
    extend_range(&mut r, &a.id.bytes, 0, n);
    if a.restricted {
        r.push(0u8);
    }
    assert(a.id.bytes@.subrange(0, n as int) =~= a.id@);
    assert(r@ =~= packed_address(a@));
    r
}

/// Unpacks an address from all of `b`.
pub fn unpack_address(b: &Vec<u8>) -> (r: Option<Address>)
    ensures
        match unpacked_address(b@) {
            Some(v) => r matches Some(a) && a@ == v,
            None => r is None,
        },
{
    if b.len() == 33 {
        match kind_of_byte_exec(b[0]) {
            Some(kind) => {
                let mut id: Vec<u8> = Vec::new();
                extend_range(&mut id, b, 1, 33);
                assert(id@ =~= b@.subrange(1, 33));
                Some(Address { kind, id: Id::new(id), restricted: false })
            },
            None => None,
        }
    } else if b.len() == 35 && b[0] == 48u8 && b[34] == 0u8 {
        match kind_of_byte_exec(b[1]) {
            Some(kind) => {
                let mut id: Vec<u8> = Vec::new();
                extend_range(&mut id, b, 2, 34);
                assert(id@ =~= b@.subrange(2, 34));
                Some(Address { kind, id: Id::new(id), restricted: true })
            },
            None => None,
        }
    } else {
        None
    }
}

/// The bech32 string, with the classic bech32 checksum, that encodes `data` under the
/// human-readable part `hrp`, as `bech32::encode::<Bech32>` writes it.
pub uninterp spec fn bech32_encoding(hrp: Seq<char>, data: Seq<u8>) -> Seq<char>;

/// What `bech32::decode` reads from `s`: the human-readable part and the data, or nothing
/// where `s` is not a bech32 string with a valid checksum.
pub uninterp spec fn bech32_decoding(s: Seq<char>) -> Option<(Seq<char>, Seq<u8>)>;

/// Encodes `data` under `hrp` with `bech32::encode::<bech32::Bech32>`.
/// Trusted: the result is the named encoding of the arguments. The call succeeds for a
/// valid part and at most 512 bytes of data: the source fails only where the encoded
/// length (part, separator, 5-bit groups and six checksum characters) passes 1023.
#[verifier::external_body]
fn encode_bech32(hrp: &str, data: &[u8]) -> (r: String)
    requires
        is_valid_hrp(hrp@),
        data@.len() <= 512,
    ensures
        r@ == bech32_encoding(hrp@, data@),
{
    match bech32::encode::<bech32::Bech32>(bech32::Hrp::parse_unchecked(hrp), data) {
        Ok(s) => s,
        Err(_) => String::new(),
    }
}

/// Decodes `s` with `bech32::decode`.
/// Trusted: the result is the named decoding of `s`; its human-readable part is valid,
/// since the source builds it with `Hrp::parse`.
#[verifier::external_body]
fn decode_bech32(s: &str) -> (r: Option<(String, Vec<u8>)>)
    ensures
        match r {
            Some((h, d)) => bech32_decoding(s@) == Some((h@, d@)) && is_valid_hrp(h@),
            None => bech32_decoding(s@) is None,
        },
{
    match bech32::decode(s) {
        Ok((h, d)) => Some((h.as_str().to_string(), d)),
        Err(_) => None,
    }
}

/// The value of a bech32 address.
pub struct Bech32AddressV {
    pub hrp: Seq<char>,
    pub inner: AddressV,
}

/// The bech32 text of an address value.
pub open spec fn bech32_text(a: Bech32AddressV) -> Seq<char> {
    bech32_encoding(a.hrp, packed_address(a.inner))
}

/// An address together with the human-readable part under which it is written.
#[derive(Debug)]
pub struct Bech32Address {
    hrp: Hrp,
    inner: Address,
}

impl View for Bech32Address {
    type V = Bech32AddressV;

    closed spec fn view(&self) -> Bech32AddressV {
        Bech32AddressV { hrp: self.hrp@, inner: self.inner@ }
    }
}

impl Bech32Address {
    #[verifier::type_invariant]
    spec fn inv(self) -> bool {
        self.inner.id@.len() == 32
    }

    /// Writes `inner` under `hrp`.
    pub fn new(hrp: Hrp, inner: Address) -> (r: Bech32Address)
        requires
            inner@.id.len() == 32,
        ensures
            r@ == (Bech32AddressV { hrp: hrp@, inner: inner@ }),
    {
        Bech32Address { hrp, inner }
    }

    /// The human-readable part.
    pub fn hrp(&self) -> (r: &Hrp)
        ensures
            r@ == self@.hrp,
    {
        &self.hrp
    }

    /// The address.
    pub fn inner(&self) -> (r: &Address)
        ensures
            r@ == self@.inner,
    {
        &self.inner
    }

    /// Reads a bech32 address: a bech32 string whose data is a packed address.
    pub fn try_from_str(s: &str) -> (r: Result<Bech32Address, Bech32Error>)
        ensures
            match bech32_decoding(s@) {
                None => r == Err::<Bech32Address, Bech32Error>(Bech32Error::InvalidBech32),
                Some((h, d)) => match unpacked_address(d) {
                    None => r == Err::<Bech32Address, Bech32Error>(Bech32Error::InvalidAddress),
                    Some(a) => r matches Ok(b) && b@ == (Bech32AddressV { hrp: h, inner: a }),
                },
            },
    {
        match decode_bech32(s) {
            None => Err(Bech32Error::InvalidBech32),
            Some((h, d)) => match unpack_address(&d) {
                None => Err(Bech32Error::InvalidAddress),
                Some(inner) => Ok(Bech32Address { hrp: Hrp { text: h }, inner }),
            },
        }
    }

    /// The bech32 text of the address.
    pub fn to_bech32_string(&self) -> (r: String)
        ensures
            r@ == bech32_text(self@),
    {
        proof {
            use_type_invariant(self);
            use_type_invariant(&self.hrp);
        }
        let data = pack_address(&self.inner);
        encode_bech32(self.hrp.as_str(), data.as_slice())
    }
}

impl Clone for Bech32Address {
    fn clone(&self) -> (r: Self)
        ensures
            r@ == self@,
    {
        proof {
            use_type_invariant(self);
        }
        Bech32Address { hrp: self.hrp.clone(), inner: self.inner.clone() }
    }
}

} // verus!
