//! Checksums and identifiers as runs of bytes, and their text in base
//! sixteen.

use vstd::prelude::*;
use crate::text::{chars_of, hex_char, hex_char_of, hex_value, hex_value_of, is_hex_digit, string_of};

verus! {

/// The bytes of `bytes` in base sixteen, two small-letter digits each.
pub open spec fn hex_text(bytes: Seq<u8>) -> Seq<char> {
    Seq::new(
        2 * bytes.len(),
        |i: int|
            if i % 2 == 0 {
                hex_char(bytes[i / 2] as int / 16)
            } else {
                hex_char(bytes[i / 2] as int % 16)
            },
    )
}

/// The bytes that `s` writes in base sixteen: an even number of digits, in
/// either case.
pub open spec fn hex_bytes(s: Seq<char>) -> Option<Seq<u8>> {
    if s.len() % 2 == 0 && (forall|i: int| 0 <= i < s.len() ==> is_hex_digit(#[trigger] s[i])) {
        Some(
            Seq::new(
                s.len() / 2,
                |k: int| (hex_value(s[2 * k]) * 16 + hex_value(s[2 * k + 1])) as u8,
            ),
        )
    } else {
        None
    }
}

/// Bytes that were written in base sixteen are read back.
pub proof fn lemma_hex_round_trip(bytes: Seq<u8>)
    ensures
        hex_bytes(hex_text(bytes)) == Some(bytes),
{
    let s = hex_text(bytes);
    assert forall|i: int| 0 <= i < s.len() implies is_hex_digit(#[trigger] s[i]) by {
        let b = bytes[i / 2] as int;
        assert(0 <= b / 16 < 16 && 0 <= b % 16 < 16);
    }
    let back = hex_bytes(s)->0;
    assert forall|k: int| 0 <= k < bytes.len() implies back[k] == bytes[k] by {
        let b = bytes[k] as int;
        assert(0 <= b / 16 < 16 && 0 <= b % 16 < 16);
        assert((2 * k) / 2 == k && (2 * k) % 2 == 0);
        assert((2 * k + 1) / 2 == k && (2 * k + 1) % 2 == 1);
        assert(s[2 * k] == hex_char(b / 16));
        assert(s[2 * k + 1] == hex_char(b % 16));
        assert(hex_value(hex_char(b / 16)) == b / 16);
        assert(hex_value(hex_char(b % 16)) == b % 16);
    }
    assert(back =~= bytes);
}

/// Writes `bytes` in base sixteen.
pub fn encode_hex(bytes: &Vec<u8>) -> (s: Vec<char>)
    ensures
        s@ == hex_text(bytes@),
{
    let mut s: Vec<char> = Vec::new();
    let mut k: usize = 0;
    while k < bytes.len()
        invariant
            k <= bytes.len(),
            s.len() == 2 * k,
            forall|i: int| 0 <= i < 2 * k ==> s[i] == hex_text(bytes@)[i],
        decreases bytes.len() - k,
    {
        let b = bytes[k];
        s.push(hex_char_of(b / 16));
        s.push(hex_char_of(b % 16));
        proof {
            assert((2 * k) / 2 == k && (2 * k) % 2 == 0);
            assert((2 * k + 1) / 2 == k && (2 * k + 1) % 2 == 1);
        }
        k += 1;
    }
    assert(s@ =~= hex_text(bytes@));
    s
}

/// Reads bytes written in base sixteen; `None` when `s` holds another
/// character or an odd number of digits.
pub fn decode_hex(s: &Vec<char>) -> (r: Option<Vec<u8>>)
    ensures
        match r {
            Some(bytes) => hex_bytes(s@) == Some(bytes@),
            None => hex_bytes(s@) is None,
        },
{
    if s.len() % 2 != 0 {
        return None;
    }
    let n = s.len() / 2;
    let mut bytes: Vec<u8> = Vec::new();
    let mut k: usize = 0;
    while k < n
        invariant
            s.len() == 2 * n,
            k <= n,
            bytes.len() == k,
            forall|i: int| 0 <= i < 2 * k ==> is_hex_digit(#[trigger] s[i]),
            forall|j: int|
                0 <= j < k ==> bytes[j] == (hex_value(s[2 * j]) * 16 + hex_value(s[2 * j + 1])) as u8,
        decreases n - k,
    {
        let hi = hex_value_of(s[2 * k]);
        let lo = hex_value_of(s[2 * k + 1]);
        match (hi, lo) {
            (Some(hi), Some(lo)) => {
                bytes.push(hi * 16 + lo);
            },
            _ => {
                assert(!is_hex_digit(s@[2 * k as int]) || !is_hex_digit(s@[2 * k + 1]));
                return None;
            },
        }
        k += 1;
    }
    proof {
        assert(bytes@ =~= hex_bytes(s@)->0);
    }
    Some(bytes)
}

/// Whether two byte vectors hold the same bytes.
pub fn bytes_eq(a: &Vec<u8>, b: &Vec<u8>) -> (same: bool)
    ensures
        same == (a@ == b@),
{
    if a.len() != b.len() {
        return false;
    }
    let mut i: usize = 0;
    while i < a.len()
        invariant
            a.len() == b.len(),
            i <= a.len(),
            forall|j: int| 0 <= j < i ==> a[j] == b[j],
        decreases a.len() - i,
    {
        if a[i] != b[i] {
            return false;
        }
        i += 1;
    }
    assert(a@ =~= b@);
    true
}

/// A copy of `v`.
pub fn copy_bytes(v: &Vec<u8>) -> (r: Vec<u8>)
    ensures
        r@ == v@,
{
    let mut r: Vec<u8> = Vec::new();
    let mut i: usize = 0;
    while i < v.len()
        invariant
            i <= v.len(),
            r@ == v@.take(i as int),
        decreases v.len() - i,
    {
        r.push(v[i]);
        assert(v@.take(i as int).push(v@[i as int]) =~= v@.take(i + 1));
        i += 1;
    }
    assert(v@.take(v.len() as int) =~= v@);
    r
}

/// The checksum that `s` writes: 64 digits of base sixteen.
pub open spec fn checksum_of(s: Seq<char>) -> Option<Seq<u8>> {
    if s.len() == 64 {
        hex_bytes(s)
    } else {
        None
    }
}

/// A SHA-256 digest: 32 bytes.
#[derive(Debug, PartialEq, Eq, Hash)]
pub struct Sha256Hash {
    digest: Vec<u8>,
}

impl Sha256Hash {
    /// The 32 bytes of the digest.
    pub closed spec fn view(&self) -> Seq<u8> {
        self.digest@
    }

    #[verifier::type_invariant]
    spec fn has_32_bytes(&self) -> bool {
        self.digest@.len() == 32
    }

    /// The digest of 32 zero bytes.
    pub fn new() -> (h: Sha256Hash)
        ensures
            h@ == Seq::new(32, |i: int| 0u8),
    {
        let mut digest: Vec<u8> = Vec::new();
        let mut i: usize = 0;
        while i < 32
            invariant
                i <= 32,
                digest.len() == i,
                forall|j: int| 0 <= j < i ==> digest[j] == 0,
            decreases 32 - i,
        {
            digest.push(0);
            i += 1;
        }
        assert(digest@ =~= Seq::new(32, |i: int| 0u8));
        Sha256Hash { digest }
    }

    /// The digest with the given bytes; `None` unless they are 32.
    pub fn from_bytes(bytes: Vec<u8>) -> (r: Option<Sha256Hash>)
        ensures
            r is Some <==> bytes@.len() == 32,
            r matches Some(h) ==> h@ == bytes@,
    {
        if bytes.len() == 32 {
            Some(Sha256Hash { digest: bytes })
        } else {
            None
        }
    }

    /// Reads a digest from 64 digits of base sixteen, in either case.
    pub fn from_chars(s: &Vec<char>) -> (r: Option<Sha256Hash>)
        ensures
            match r {
                Some(h) => checksum_of(s@) == Some(h@),
                None => checksum_of(s@) is None,
            },
    {
        if s.len() != 64 {
            return None;
        }
        match decode_hex(s) {
            Some(bytes) => Some(Sha256Hash { digest: bytes }),
            None => None,
        }
    }

    /// Reads a digest from 64 digits of base sixteen, in either case.
    pub fn from_str(s: &str) -> (r: Option<Sha256Hash>)
        ensures
            match r {
                Some(h) => checksum_of(s@) == Some(h@),
                None => checksum_of(s@) is None,
            },
    {
        Sha256Hash::from_chars(&chars_of(s))
    }

    /// The bytes of the digest.
    pub fn as_bytes(&self) -> (bytes: &Vec<u8>)
        ensures
            bytes@ == self@,
            self@.len() == 32,
    {
        proof {
            use_type_invariant(self);
        }
        &self.digest
    }

    /// The digest as 64 small-letter digits of base sixteen.
    pub fn to_chars(&self) -> (s: Vec<char>)
        ensures
            s@ == hex_text(self@),
            s@.len() == 64,
            self@.len() == 32,
    {
        proof {
            use_type_invariant(self);
        }
        encode_hex(&self.digest)
    }

    /// The digest as 64 small-letter digits of base sixteen.
    pub fn to_string(&self) -> (s: String)
        ensures
            s@ == hex_text(self@),
    {
        string_of(&self.to_chars())
    }

    /// Whether two digests hold the same bytes.
    pub fn equals(&self, other: &Sha256Hash) -> (same: bool)
        ensures
            same == (self@ == other@),
    {
        bytes_eq(&self.digest, &other.digest)
    }
}

impl Clone for Sha256Hash {
    fn clone(&self) -> (r: Self)
        ensures
            r@ == self@,
    {
        proof {
            use_type_invariant(self);
        }
        Sha256Hash { digest: copy_bytes(&self.digest) }
    }
}

/// A checksum that was written as text is read back from it.
pub proof fn lemma_checksum_round_trip(bytes: Seq<u8>)
    requires
        bytes.len() == 32,
    ensures
        checksum_of(hex_text(bytes)) == Some(bytes),
{
    lemma_hex_round_trip(bytes);
}

/// The 32 digits of `h` with hyphens after the 8th, 12th, 16th and 20th.
pub open spec fn with_hyphens(h: Seq<char>) -> Seq<char> {
    h.subrange(0, 8) + seq!['-'] + h.subrange(8, 12) + seq!['-'] + h.subrange(12, 16) + seq!['-']
        + h.subrange(16, 20) + seq!['-'] + h.subrange(20, 32)
}

/// The 36 characters of `s` without the 9th, 14th, 19th and 24th.
pub open spec fn without_hyphens(s: Seq<char>) -> Seq<char> {
    s.subrange(0, 8) + s.subrange(9, 13) + s.subrange(14, 18) + s.subrange(19, 23) + s.subrange(
        24,
        36,
    )
}

/// The identifier `bytes` as text: 32 digits of base sixteen in groups of
/// 8, 4, 4, 4 and 12 with hyphens between.
pub open spec fn uuid_text(bytes: Seq<u8>) -> Seq<char> {
    with_hyphens(hex_text(bytes))
}

/// The identifier that `s` writes.
pub open spec fn uuid_of(s: Seq<char>) -> Option<Seq<u8>> {
    if s.len() == 36 && s[8] == '-' && s[13] == '-' && s[18] == '-' && s[23] == '-' {
        hex_bytes(without_hyphens(s))
    } else {
        None
    }
}

/// An identifier that was written as text is read back from it.
pub proof fn lemma_uuid_round_trip(bytes: Seq<u8>)
    requires
        bytes.len() == 16,
    ensures
        uuid_of(uuid_text(bytes)) == Some(bytes),
{
    let h = hex_text(bytes);
    let s = uuid_text(bytes);
    assert(s.len() == 36);
    assert(s[8] == '-' && s[13] == '-' && s[18] == '-' && s[23] == '-');
    assert(without_hyphens(s) =~= h);
    lemma_hex_round_trip(bytes);
}

/// A universally unique identifier: 16 bytes.
#[derive(Debug, PartialEq, Eq, Hash)]
pub struct Uuid {
    bytes: Vec<u8>,
}

impl Uuid {
    /// The 16 bytes of the identifier.
    pub closed spec fn view(&self) -> Seq<u8> {
        self.bytes@
    }

    #[verifier::type_invariant]
    spec fn has_16_bytes(&self) -> bool {
        self.bytes@.len() == 16
    }

    /// The identifier of 16 zero bytes.
    pub fn nil() -> (u: Uuid)
        ensures
            u@ == Seq::new(16, |i: int| 0u8),
    {
        let mut bytes: Vec<u8> = Vec::new();
        let mut i: usize = 0;
        while i < 16
            invariant
                i <= 16,
                bytes.len() == i,
                forall|j: int| 0 <= j < i ==> bytes[j] == 0,
            decreases 16 - i,
        {
            bytes.push(0);
            i += 1;
        }
        assert(bytes@ =~= Seq::new(16, |i: int| 0u8));
        Uuid { bytes }
    }

    /// The identifier with the given bytes; `None` unless they are 16.
    pub fn from_bytes(bytes: Vec<u8>) -> (r: Option<Uuid>)
        ensures
            r is Some <==> bytes@.len() == 16,
            r matches Some(u) ==> u@ == bytes@,
    {
        if bytes.len() == 16 {
            Some(Uuid { bytes })
        } else {
            None
        }
    }

    /// Reads an identifier from its 36 characters.
    pub fn from_chars(s: &Vec<char>) -> (r: Option<Uuid>)
        ensures
            match r {
                Some(u) => uuid_of(s@) == Some(u@),
                None => uuid_of(s@) is None,
            },
    {
        if s.len() != 36 {
            return None;
        }
        if s[8] != '-' || s[13] != '-' || s[18] != '-' || s[23] != '-' {
            return None;
        }
        let mut digits: Vec<char> = Vec::new();
        let mut i: usize = 0;
        while i < 36
            invariant
                s.len() == 36,
                i <= 36,
                digits.len() == (if i <= 8 {
                    i as int
                } else if i <= 13 {
                    i - 1
                } else if i <= 18 {
                    i - 2
                } else if i <= 23 {
                    i - 3
                } else {
                    i - 4
                }),
                forall|j: int|
                    0 <= j < digits.len() ==> digits[j] == s[if j < 8 {
                        j
                    } else if j < 12 {
                        j + 1
                    } else if j < 16 {
                        j + 2
                    } else if j < 20 {
                        j + 3
                    } else {
                        j + 4
                    }],
            decreases 36 - i,
        {
            if i != 8 && i != 13 && i != 18 && i != 23 {
                digits.push(s[i]);
            }
            i += 1;
        }
        assert(digits@ =~= without_hyphens(s@));
        match decode_hex(&digits) {
            Some(bytes) => Some(Uuid { bytes }),
            None => None,
        }
    }

    /// Reads an identifier from its text.
    pub fn from_str(s: &str) -> (r: Option<Uuid>)
        ensures
            match r {
                Some(u) => uuid_of(s@) == Some(u@),
                None => uuid_of(s@) is None,
            },
    {
        Uuid::from_chars(&chars_of(s))
    }

    /// The bytes of the identifier.
    pub fn as_bytes(&self) -> (bytes: &Vec<u8>)
        ensures
            bytes@ == self@,
            self@.len() == 16,
    {
        proof {
            use_type_invariant(self);
        }
        &self.bytes
    }

    /// The identifier as text.
    pub fn to_chars(&self) -> (s: Vec<char>)
        ensures
            s@ == uuid_text(self@),
            self@.len() == 16,
    {
        proof {
            use_type_invariant(self);
        }
        let h = encode_hex(&self.bytes);
        let mut s: Vec<char> = Vec::new();
        let mut i: usize = 0;
        while i < 32
            invariant
                h.len() == 32,
                i <= 32,
                s.len() == (if i <= 8 {
                    i as int
                } else if i <= 12 {
                    i + 1
                } else if i <= 16 {
                    i + 2
                } else if i <= 20 {
                    i + 3
                } else {
                    i + 4
                }),
                forall|j: int| 0 <= j < s.len() ==> s[j] == with_hyphens(h@)[j],
            decreases 32 - i,
        {
            if i == 8 || i == 12 || i == 16 || i == 20 {
                s.push('-');
            }
            s.push(h[i]);
            i += 1;
        }
        assert(s@ =~= with_hyphens(h@));
        s
    }

    /// The identifier as text.
    pub fn to_string(&self) -> (s: String)
        ensures
            s@ == uuid_text(self@),
    {
        string_of(&self.to_chars())
    }

    /// Whether two identifiers hold the same bytes.
    pub fn equals(&self, other: &Uuid) -> (same: bool)
        ensures
            same == (self@ == other@),
    {
        bytes_eq(&self.bytes, &other.bytes)
    }
}

impl Clone for Uuid {
    fn clone(&self) -> (r: Self)
        ensures
            r@ == self@,
    {
        proof {
            use_type_invariant(self);
        }
        Uuid { bytes: copy_bytes(&self.bytes) }
    }
}

} // verus!
