//! Password digests and the session tokens that spell them out.

use vstd::prelude::*;

verus! {

/// The character of a hexadecimal digit, in lower case.
pub open spec fn hex_digit(value: int) -> char
    recommends
        0 <= value < 16,
{
    if value < 10 {
        (0x30 + value) as char
    } else {
        (0x61 + value - 10) as char
    }
}

/// The value of a hexadecimal digit in either case; negative for any other
/// character.
pub open spec fn hex_value(c: char) -> int {
    if '0' <= c <= '9' {
        c as int - 0x30
    } else if 'a' <= c <= 'f' {
        c as int - 0x61 + 10
    } else if 'A' <= c <= 'F' {
        c as int - 0x41 + 10
    } else {
        -1
    }
}

/// Two lower-case hexadecimal digits for each byte.
pub open spec fn hex_text(bytes: Seq<u8>) -> Seq<char> {
    Seq::new(
        2 * bytes.len(),
        |i: int|
            if i % 2 == 0 {
                hex_digit(bytes[i / 2] as int / 16)
            } else {
                hex_digit(bytes[i / 2] as int % 16)
            },
    )
}

/// Whether `text` is a digest in hexadecimal: 64 digits, in either case.
pub open spec fn is_hex_digest(text: Seq<char>) -> bool {
    &&& text.len() == 64
    &&& forall|i: int| 0 <= i < 64 ==> 0 <= #[trigger] hex_value(text[i])
}

/// The 32 bytes that 64 hexadecimal digits spell.
pub open spec fn hex_bytes(text: Seq<char>) -> Seq<u8>
    recommends
        is_hex_digest(text),
{
    Seq::new(32, |i: int| (16 * hex_value(text[2 * i]) + hex_value(text[2 * i + 1])) as u8)
}

/// The BLAKE3 digest of `input`.
pub uninterp spec fn blake3_digest(input: Seq<u8>) -> Seq<u8>;

/// `blake3::hash`: the default-size BLAKE3 digest of the input, a function of
/// the input's bytes alone.
#[verifier::external_body]
fn blake3_hash(input: &[u8]) -> (digest: [u8; 32])
    ensures
        digest@ == blake3_digest(input@),
{
    *blake3::hash(input).as_bytes()
}

/// `blake3::Hash`'s `==`, which is constant-time: true exactly when the two
/// digests hold the same bytes.
#[verifier::external_body]
fn blake3_eq(a: &[u8; 32], b: &[u8; 32]) -> (r: bool)
    ensures
        r == (a@ == b@),
{
    blake3::Hash::from_bytes(*a) == blake3::Hash::from_bytes(*b)
}

/// `blake3::Hash::to_hex`: two lower-case hexadecimal digits for each byte.
#[verifier::external_body]
fn blake3_to_hex(bytes: &[u8; 32]) -> (text: String)
    ensures
        text@ == hex_text(bytes@),
{
    blake3::Hash::from_bytes(*bytes).to_hex().to_string()
}

/// `blake3::Hash::from_hex`: decodes exactly 64 hexadecimal digits, in either
/// case, and refuses any other text.
#[verifier::external_body]
fn blake3_from_hex(text: &str) -> (bytes: Option<[u8; 32]>)
    ensures
        bytes is Some <==> is_hex_digest(text@),
        bytes matches Some(b) ==> b@ == hex_bytes(text@),
{
    blake3::Hash::from_hex(text).ok().map(|hash| *hash.as_bytes())
}

/// The BLAKE3 digest of a password.
///
/// In hexadecimal it is the session token: a password-equivalent bearer token.
#[derive(Clone, Copy, Debug, Eq)]
pub struct Digest {
    pub bytes: [u8; 32],
}

impl View for Digest {
    type V = Seq<u8>;

    open spec fn view(&self) -> Seq<u8> {
        self.bytes@
    }
}

impl PartialEq for Digest {
    /// Constant-time.
    fn eq(&self, other: &Self) -> (r: bool) {
        blake3_eq(&self.bytes, &other.bytes)
    }
}

impl vstd::std_specs::cmp::PartialEqSpecImpl for Digest {
    open spec fn obeys_eq_spec() -> bool {
        true
    }

    open spec fn eq_spec(&self, other: &Self) -> bool {
        self@ == other@
    }
}

impl Digest {
    /// The digest of a password.
    pub fn of_password(password: &str) -> (digest: Self)
        ensures
            digest@ == blake3_digest(vstd::utf8::encode_utf8(password@)),
    {
        Digest { bytes: blake3_hash(password.as_bytes()) }
    }

    /// The digest in lower-case hexadecimal.
    pub fn to_hex(&self) -> (text: String)
        ensures
            text@ == hex_text(self@),
    {
        blake3_to_hex(&self.bytes)
    }

    /// The digest that `text` spells in hexadecimal, if it spells one.
    pub fn from_hex(text: &str) -> (digest: Option<Self>)
        ensures
            digest is Some <==> is_hex_digest(text@),
            digest matches Some(d) ==> d@ == hex_bytes(text@),
    {
        match blake3_from_hex(text) {
            Some(bytes) => Some(Digest { bytes }),
            None => None,
        }
    }
}

/// Hexadecimal is made of digits and lower-case letters.
pub proof fn lemma_hex_text_digits(bytes: Seq<u8>)
    ensures
        forall|i: int|
            0 <= i < hex_text(bytes).len() ==> ('0' <= #[trigger] hex_text(bytes)[i] <= '9' || 'a'
                <= hex_text(bytes)[i] <= 'f'),
{
    assert forall|i: int| 0 <= i < hex_text(bytes).len() implies ('0' <= #[trigger] hex_text(
        bytes,
    )[i] <= '9' || 'a' <= hex_text(bytes)[i] <= 'f') by {
        let byte = bytes[i / 2] as int;
        assert(0 <= byte / 16 < 16 && 0 <= byte % 16 < 16);
    }
}

/// A digest is read back from the hexadecimal it was written as.
pub proof fn lemma_hex_round_trip(digest: Digest)
    ensures
        is_hex_digest(hex_text(digest@)),
        hex_bytes(hex_text(digest@)) == digest@,
{
    let text = hex_text(digest@);
    assert forall|v: int| 0 <= v < 16 implies #[trigger] hex_value(hex_digit(v)) == v by {}
    assert forall|i: int| 0 <= i < 64 implies 0 <= #[trigger] hex_value(text[i]) by {
        let byte = digest@[i / 2] as int;
        assert(0 <= byte / 16 < 16 && 0 <= byte % 16 < 16);
    }
    assert forall|i: int| 0 <= i < 32 implies hex_bytes(text)[i] == digest@[i] by {
        let byte = digest@[i] as int;
        assert((2 * i) / 2 == i && (2 * i) % 2 == 0 && (2 * i + 1) / 2 == i && (2 * i + 1) % 2 == 1);
        assert(text[2 * i] == hex_digit(byte / 16));
        assert(text[2 * i + 1] == hex_digit(byte % 16));
        assert(16 * (byte / 16) + byte % 16 == byte);
    }
    assert(hex_bytes(text) =~= digest@);
}

} // verus!
