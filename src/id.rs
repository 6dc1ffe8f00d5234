//! Activity identifiers: the SHA-256 digest of a natural key, and its
//! lowercase hexadecimal text.

use vstd::prelude::*;
use vstd::utf8::encode_utf8;

use crate::error::Error;
use hex::FromHexError;
use sha2_const::Sha256;

verus! {

/// Number of bytes in an identifier.
pub const ID_BYTES: usize = 32;

/// Inputs to the digest must be shorter than this many bytes: the digest
/// counts the input's bits in a `u64`.
pub const DIGEST_INPUT_LIMIT: u64 = 0x2000_0000_0000_0000;

/// The SHA-256 digest of a byte sequence.
pub uninterp spec fn sha256_of(bytes: Seq<u8>) -> Seq<u8>;

/// Relies on sha2_const's `Sha256::new().update(..).finalize()`: the SHA-256
/// digest of `input`, a function of the input bytes alone.
#[verifier::external_body]
fn sha256(input: &[u8]) -> (r: [u8; 32])
    requires
        input@.len() < DIGEST_INPUT_LIMIT,
    ensures
        r@ == sha256_of(input@),
{
    Sha256::new().update(input).finalize()
}

/// The lowercase hexadecimal digit for a value below sixteen.
pub open spec fn hex_digit(v: int) -> char {
    if v < 10 {
        (v + 48) as char
    } else {
        (v + 87) as char
    }
}

/// The lowercase hexadecimal text of a byte sequence: two digits per byte,
/// the high nibble first.
pub open spec fn hex_text(bytes: Seq<u8>) -> Seq<char> {
    Seq::new(
        2 * bytes.len(),
        |i: int|
            if i % 2 == 0 {
                hex_digit(bytes[i / 2] as int / 16)
            } else {
                hex_digit(bytes[i / 2] as int % 16)
            },
    )
}

/// Whether `c` is a hexadecimal digit, in either case.
pub open spec fn is_hex_char(c: char) -> bool {
    ('0' <= c && c <= '9') || ('a' <= c && c <= 'f') || ('A' <= c && c <= 'F')
}

/// The value of a hexadecimal digit.
pub open spec fn hex_value(c: char) -> int {
    if '0' <= c && c <= '9' {
        c as int - 48
    } else if 'a' <= c && c <= 'f' {
        c as int - 87
    } else {
        c as int - 55
    }
}

/// Whether `s` is hexadecimal text: an even number of hexadecimal digits.
pub open spec fn is_hex_text(s: Seq<char>) -> bool {
    s.len() % 2 == 0 && forall|i: int| 0 <= i < s.len() ==> is_hex_char(#[trigger] s[i])
}

/// The bytes that hexadecimal text stands for, each from a pair of digits.
pub open spec fn hex_bytes(s: Seq<char>) -> Seq<u8> {
    Seq::new(s.len() / 2, |i: int| (hex_value(s[2 * i]) * 16 + hex_value(s[2 * i + 1])) as u8)
}

/// Relies on hex::encode: two lowercase digits per byte, high nibble first.
#[verifier::external_body]
fn encode_hex(bytes: &[u8; 32]) -> (r: String)
    ensures
        r@ == hex_text(bytes@),
{
    hex::encode(bytes)
}

#[verifier::external_type_specification]
#[verifier::external_body]
pub struct ExFromHexError(FromHexError);

/// Relies on hex::decode: it succeeds exactly on an even number of digits of
/// either case, each pair giving one byte. Text holding a character other
/// than an ASCII digit holds a byte that is no digit, and is refused.
#[verifier::external_body]
fn decode_hex(text: &str) -> (r: Result<Vec<u8>, FromHexError>)
    ensures
        r is Ok <==> is_hex_text(text@),
        r matches Ok(v) ==> v@ == hex_bytes(text@),
{
    hex::decode(text)
}

proof fn lemma_hex_digit(v: int)
    requires
        0 <= v < 16,
    ensures
        is_hex_char(hex_digit(v)),
        hex_value(hex_digit(v)) == v,
{
}

/// Hexadecimal text read back gives the bytes it was written from, and every
/// such text is well formed.
pub proof fn lemma_hex_round_trip(bytes: Seq<u8>)
    ensures
        is_hex_text(hex_text(bytes)),
        hex_bytes(hex_text(bytes)) == bytes,
{
    let t = hex_text(bytes);
    assert forall|i: int| 0 <= i < t.len() implies is_hex_char(#[trigger] t[i]) by {
        lemma_hex_digit(bytes[i / 2] as int / 16);
        lemma_hex_digit(bytes[i / 2] as int % 16);
    }
    assert forall|i: int| 0 <= i < bytes.len() implies #[trigger] hex_bytes(t)[i] == bytes[i] by {
        lemma_hex_digit(bytes[i] as int / 16);
        lemma_hex_digit(bytes[i] as int % 16);
        assert(t[2 * i] == hex_digit(bytes[i] as int / 16));
        assert(t[2 * i + 1] == hex_digit(bytes[i] as int % 16));
    }
    assert(hex_bytes(t) =~= bytes);
}

/// An identifier written as text (`Id::to_hex`) and read back (`Id::from`)
/// is the same identifier.
pub proof fn lemma_id_round_trip(id: Id)
    ensures
        is_id_text(hex_text(id@)),
        hex_bytes(hex_text(id@)) == id@,
{
    lemma_hex_round_trip(id@);
}

/// A natural key is given the same identifier whenever it is assigned one:
/// the identifier depends on the key's characters and on nothing else.
pub proof fn lemma_id_deterministic(first: Seq<char>, second: Seq<char>)
    requires
        first == second,
    ensures
        id_of_key(first) == id_of_key(second),
{
}

/// An activity identifier: the SHA-256 digest of its natural key.
#[derive(Clone, Copy, Debug)]
pub struct Id {
    pub hash: [u8; 32],
}

impl View for Id {
    type V = Seq<u8>;

    open spec fn view(&self) -> Seq<u8> {
        self.hash@
    }
}

/// The identifier that a natural key is given: the digest of its UTF-8 bytes.
pub open spec fn id_of_key(key: Seq<char>) -> Seq<u8> {
    sha256_of(encode_utf8(key))
}

/// Whether `s` is the text form of some identifier.
pub open spec fn is_id_text(s: Seq<char>) -> bool {
    s.len() == 2 * ID_BYTES && is_hex_text(s)
}

impl Id {
    /// The identifier of a natural key.
    pub fn new(key: &str) -> (r: Id)
        requires
            encode_utf8(key@).len() < DIGEST_INPUT_LIMIT,
        ensures
            r@ == id_of_key(key@),
    {
        Id { hash: sha256(key.as_bytes()) }
    }

    /// Reads an identifier from its hexadecimal text, in either case.
    pub fn from(text: &str) -> (r: Result<Id, Error>)
        ensures
            r is Ok <==> is_id_text(text@),
            r matches Ok(id) ==> id@ == hex_bytes(text@),
            r matches Err(e) ==> e == Error::InvalidIdentifier,
    {
        match decode_hex(text) {
            Err(_) => Err(Error::InvalidIdentifier),
            Ok(bytes) => {
                if bytes.len() != ID_BYTES {
                    return Err(Error::InvalidIdentifier);
                }
                let mut hash: [u8; 32] = [0u8; 32];
                let mut i: usize = 0;
                while i < ID_BYTES
                    invariant
                        bytes@.len() == ID_BYTES,
                        i <= ID_BYTES,
                        forall|j: int| 0 <= j < i ==> hash@[j] == bytes@[j],
                    decreases ID_BYTES - i,
                {
                    hash[i] = bytes[i];
                    i += 1;
                }
                assert(hash@ =~= bytes@);
                Ok(Id { hash })
            },
        }
    }

    /// The lowercase hexadecimal text of this identifier.
    pub fn to_hex(&self) -> (r: String)
        ensures
            r@ == hex_text(self@),
    {
        encode_hex(&self.hash)
    }

    /// Whether two identifiers hold the same bytes.
    pub fn same_as(&self, other: &Id) -> (r: bool)
        ensures
            r == (self@ == other@),
    {
        let mut i: usize = 0;
        while i < ID_BYTES
            invariant
                i <= ID_BYTES,
                forall|j: int| 0 <= j < i ==> self@[j] == other@[j],
            decreases ID_BYTES - i,
        {
            if self.hash[i] != other.hash[i] {
                return false;
            }
            i += 1;
        }
        assert(self@ =~= other@);
        true
    }
}

} // verus!
