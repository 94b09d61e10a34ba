//! Bytes that are kept with the text they were decoded from.

use vstd::prelude::*;
use std::marker::PhantomData;

verus! {

/// The error that the `hex` crate reports.
#[verifier::external_type_specification]
#[verifier::external_body]
pub struct ExFromHexError(hex::FromHexError);

/// Why a text could not be decoded into bytes.
#[derive(Debug)]
pub enum EncodingError {
    /// The text is not a string of hexadecimal digits of even length.
    HexDecode { source: hex::FromHexError },
}

/// A way to read bytes from a text.
pub trait Decode {
    /// The bytes that `s` stands for, if it stands for any.
    spec fn decodes(s: Seq<char>) -> Option<Seq<u8>>;

    /// Reads the bytes that `s` stands for.
    fn decode(s: &str) -> (r: Result<Vec<u8>, EncodingError>)
        ensures
            match r {
                Ok(bytes) => Self::decodes(s@) == Some(bytes@),
                Err(_) => Self::decodes(s@).is_none(),
            },
    ;
}

/// A way to write bytes as a text.
pub trait Encode {
    /// The text that stands for `b`.
    spec fn encodes(b: Seq<u8>) -> Seq<char>;

    /// Writes the text that stands for `b`.
    fn encode(b: &[u8]) -> (s: String)
        ensures
            s@ == Self::encodes(b@),
    ;
}

/// The hexadecimal digit, in lowercase, for a number below sixteen.
pub open spec fn hex_digit(n: int) -> char {
    if n < 10 {
        ('0' as int + n) as char
    } else {
        ('a' as int + n - 10) as char
    }
}

/// The number that a hexadecimal digit, in either case, stands for.
pub open spec fn hex_value(c: char) -> Option<int> {
    if '0' <= c <= '9' {
        Some(c as int - '0' as int)
    } else if 'a' <= c <= 'f' {
        Some(c as int - 'a' as int + 10)
    } else if 'A' <= c <= 'F' {
        Some(c as int - 'A' as int + 10)
    } else {
        None
    }
}

/// Two lowercase hexadecimal digits for each byte, the high half first.
pub open spec fn hex_encoded(b: Seq<u8>) -> Seq<char> {
    Seq::new(
        2 * b.len(),
        |i: int|
            if i % 2 == 0 {
                hex_digit(b[i / 2] as int / 16)
            } else {
                hex_digit(b[i / 2] as int % 16)
            },
    )
}

/// A string of hexadecimal digits, an even number of them.
pub open spec fn is_hex(s: Seq<char>) -> bool {
    &&& s.len() % 2 == 0
    &&& forall|i: int| 0 <= i < s.len() ==> (#[trigger] hex_value(s[i])).is_some()
}

/// One byte for each two digits, the high half first.
pub open spec fn hex_decoded(s: Seq<char>) -> Seq<u8> {
    Seq::new(
        s.len() / 2,
        |i: int| (hex_value(s[2 * i]).unwrap() * 16 + hex_value(s[2 * i + 1]).unwrap()) as u8,
    )
}

/// `hex::encode` writes each byte as two lowercase hexadecimal digits, the
/// high half first.
#[verifier::external_body]
fn hex_encode(b: &[u8]) -> (s: String)
    ensures
        s@ == hex_encoded(b@),
{
    hex::encode(b)
}

/// `hex::decode` reads a string of hexadecimal digits, in either case and of
/// even length, into one byte for each two digits, and fails on every other
/// string.
#[verifier::external_body]
fn hex_decode(s: &str) -> (r: Result<Vec<u8>, hex::FromHexError>)
    ensures
        match r {
            Ok(bytes) => is_hex(s@) && bytes@ == hex_decoded(s@),
            Err(_) => !is_hex(s@),
        },
{
    hex::decode(s)
}

/// Bytes as hexadecimal digits.
#[derive(Debug, Clone, Copy)]
pub struct Hex;

impl Decode for Hex {
    open spec fn decodes(s: Seq<char>) -> Option<Seq<u8>> {
        if is_hex(s) {
            Some(hex_decoded(s))
        } else {
            None
        }
    }

    fn decode(s: &str) -> (r: Result<Vec<u8>, EncodingError>) {
        match hex_decode(s) {
            Ok(bytes) => Ok(bytes),
            Err(source) => Err(EncodingError::HexDecode { source }),
        }
    }
}

impl Encode for Hex {
    open spec fn encodes(b: Seq<u8>) -> Seq<char> {
        hex_encoded(b)
    }

    fn encode(b: &[u8]) -> (s: String) {
        hex_encode(b)
    }
}

/// What is written in hexadecimal reads back as the same bytes.
pub proof fn lemma_hex_round_trip(b: Seq<u8>)
    ensures
        Hex::decodes(Hex::encodes(b)) == Some(b),
{
    let s = hex_encoded(b);
    assert forall|i: int| 0 <= i < s.len() implies (#[trigger] hex_value(s[i])).is_some() by {
        let byte = b[i / 2] as int;
        assert(0 <= byte / 16 < 16 && 0 <= byte % 16 < 16);
    }
    assert forall|i: int| 0 <= i < b.len() implies hex_decoded(s)[i] == b[i] by {
        let byte = b[i] as int;
        assert(0 <= byte / 16 < 16 && 0 <= byte % 16 < 16);
        assert((2 * i) / 2 == i && (2 * i + 1) / 2 == i);
        assert(hex_value(s[2 * i]) == Some(byte / 16));
        assert(hex_value(s[2 * i + 1]) == Some(byte % 16));
        assert((byte / 16) * 16 + byte % 16 == byte);
    }
    assert(hex_decoded(s) =~= b);
}

/// Bytes together with the text that they were decoded from, or that
/// encodes them. `T` is the encoding.
#[derive(Debug)]
pub struct Decoded<T> {
    bytes: Vec<u8>,
    text: String,
    spooky: PhantomData<T>,
}

impl<T> Decoded<T> {
    /// The bytes.
    pub closed spec fn bytes(&self) -> Seq<u8> {
        self.bytes@
    }

    /// The text.
    pub closed spec fn text(&self) -> Seq<char> {
        self.text@
    }

    /// Gives up the text and hands out the bytes.
    pub fn into_vec(self) -> (v: Vec<u8>)
        ensures
            v@ == self.bytes(),
    {
        self.bytes
    }

    /// The bytes.
    pub fn as_ref(&self) -> (b: &[u8])
        ensures
            b@ == self.bytes(),
    {
        self.bytes.as_slice()
    }

    /// The text.
    pub fn as_str(&self) -> (s: &str)
        ensures
            s@ == self.text(),
    {
        self.text.as_str()
    }

    /// Two values are equal where their bytes are, whatever their texts.
    pub fn eq(&self, other: &Self) -> (b: bool)
        ensures
            b == (self.bytes() == other.bytes()),
    {
        let n: usize = self.bytes.len();
        if other.bytes.len() != n {
            return false;
        }
        let mut i: usize = 0;
        while i < n
            invariant
                n == self.bytes@.len(),
                n == other.bytes@.len(),
                i <= n,
                forall|j: int| 0 <= j < i ==> self.bytes@[j] == other.bytes@[j],
            decreases n - i,
        {
            if self.bytes[i] != other.bytes[i] {
                return false;
            }
            i += 1;
        }
        assert(self.bytes@ =~= other.bytes@);
        true
    }
}

impl<T: Encode> Decoded<T> {
    /// Keeps the bytes with the text that encodes them.
    pub fn from(b: Vec<u8>) -> (d: Self)
        ensures
            d.bytes() == b@,
            d.text() == T::encodes(b@),
    {
        let text = T::encode(b.as_slice());
        Decoded { bytes: b, text, spooky: PhantomData }
    }
}

impl<T: Decode> Decoded<T> {
    /// Decodes the text and keeps it with its bytes.
    pub fn from_str(s: &str) -> (r: Result<Self, EncodingError>)
        ensures
            match r {
                Ok(d) => T::decodes(s@) == Some(d.bytes()) && d.text() == s@,
                Err(_) => T::decodes(s@).is_none(),
            },
    {
        match T::decode(s) {
            Ok(bytes) => Ok(Decoded { bytes, text: String::from_str(s), spooky: PhantomData }),
            Err(e) => Err(e),
        }
    }
}

} // verus!
