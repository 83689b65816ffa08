//! SHA-256 digests and the integrity check of a fetched binary.

use crate::digits::{
    has_word, hex, hex_byte, lemma_byte_of_hex, lemma_hex_byte, lemma_hex_index, lemma_hex_len,
    push_hex_byte, read_hex_byte, text_len, word_at,
};
use sha2::{Digest, Sha256};
use vstd::prelude::*;
use vstd::std_specs::cmp::PartialEqSpecImpl;
use vstd::string::*;

verus! {

/// The SHA-256 digest of a sequence of bytes.
pub uninterp spec fn sha256(data: Seq<u8>) -> Seq<u8>;

/// A digest of 256 bits.
#[derive(Clone, Copy, Debug, Eq, Hash)]
pub struct H256(pub [u8; 32]);

impl View for H256 {
    type V = Seq<u8>;

    open spec fn view(&self) -> Seq<u8> {
        self.0@
    }
}

impl PartialEq for H256 {
    fn eq(&self, other: &Self) -> (r: bool) {
        let mut i: usize = 0;
        while i < 32
            invariant
                0 <= i <= 32,
                forall|k: int| 0 <= k < i ==> self.0[k] == other.0[k],
            decreases 32 - i,
        {
            if self.0[i] != other.0[i] {
                return false;
            }
            i = i + 1;
        }
        assert(self.0 =~= other.0);
        true
    }
}

impl PartialEqSpecImpl for H256 {
    open spec fn obeys_eq_spec() -> bool {
        true
    }

    open spec fn eq_spec(&self, other: &Self) -> bool {
        *self == *other
    }
}

impl H256 {
    /// The digest whose bytes are all zero.
    pub fn zero() -> (h: H256)
        ensures
            h@ == Seq::new(32, |i: int| 0u8),
    {
        let h = H256([0u8;32]);
        assert(h@ =~= Seq::new(32, |i: int| 0u8));
        h
    }

    /// The digest that holds the 32 bytes of `src`.
    pub fn from_slice(src: &[u8]) -> (h: H256)
        requires
            src@.len() == 32,
        ensures
            h@ == src@,
    {
        let mut bytes = [0u8;32];
        let mut i: usize = 0;
        while i < 32
            invariant
                0 <= i <= 32,
                src@.len() == 32,
                forall|k: int| 0 <= k < i ==> bytes[k] == src@[k],
            decreases 32 - i,
        {
            bytes[i] = src[i];
            i = i + 1;
        }
        let h = H256(bytes);
        assert(h@ =~= src@);
        h
    }

    /// The digest that `src` holds, where it holds 32 bytes.
    pub fn try_from_slice(src: &[u8]) -> (h: Option<H256>)
        ensures
            match h {
                Some(h) => src@.len() == 32 && h@ == src@,
                None => src@.len() != 32,
            },
    {
        if src.len() == 32 {
            Some(H256::from_slice(src))
        } else {
            None
        }
    }

    /// The 32 bytes of the digest.
    pub fn as_bytes(&self) -> (bytes: &[u8; 32])
        ensures
            bytes@ == self@,
    {
        &self.0
    }

    /// Two digests with the same bytes are the same digest.
    pub proof fn lemma_view_injective(a: H256, b: H256)
        requires
            a@ == b@,
        ensures
            a == b,
    {
        assert(a.0 =~= b.0);
    }
}

/// The text `0x` that may stand before the digits of a digest.
pub open spec fn hex_mark() -> Seq<char> {
    seq!['0', 'x']
}

/// The digits of a digest in a text: the text without the `0x` that may
/// stand at its start.
pub open spec fn digest_digits(text: Seq<char>) -> Seq<char> {
    if word_at(text, 0, hex_mark()) {
        text.subrange(2, text.len() as int)
    } else {
        text
    }
}

/// The digest that a text writes in hexadecimal, if it writes one.
pub open spec fn parsed_digest(text: Seq<char>) -> Option<H256> {
    if exists|h: H256| #[trigger] hex(h@) == digest_digits(text) {
        Some(choose|h: H256| #[trigger] hex(h@) == digest_digits(text))
    } else {
        None
    }
}

impl H256 {
    /// Reads a digest from its 64 hexadecimal digits in lower case, with or
    /// without `0x` before them.
    pub fn from_hex(text: &str) -> (r: Option<H256>)
        ensures
            match r {
                Some(h) => hex(h@) == digest_digits(text@),
                None => forall|h: H256| hex(h@) != digest_digits(text@),
            },
            r == parsed_digest(text@),
    {
        if !text.is_ascii() {
            proof {
                assert forall|h: H256| hex(h@) != digest_digits(text@) by {
                    if hex(h@) == digest_digits(text@) {
                        let digits = digest_digits(text@);
                        lemma_hex_len(h@);
                        assert(h@.len() == 32);
                        assert forall|i: int| 0 <= i < text@.len() implies '\0' <= #[trigger] text@[i]
                            <= '\u{7f}' by {
                            let shift = text@.len() - digits.len();
                            if i >= shift {
                                let k = (i - shift) / 2;
                                assert(digits[i - shift] == text@[i]);
                                lemma_hex_index(h@, k);
                                lemma_hex_byte(h@[k]);
                            } else {
                                assert(text@.subrange(0, 2)[i] == text@[i]);
                            }
                        }
                    }
                }
            }
            return None;
        }
        proof {
            reveal_strlit("0x");
            assert("0x"@ =~= hex_mark());
        }
        let len = text_len(text);
        let start: usize = if has_word(text, 0, "0x") {
            2
        } else {
            0
        };
        let ghost digits = digest_digits(text@);
        assert(digits =~= text@.subrange(start as int, len as int));
        if len - start != 64 {
            proof {
                assert forall|h: H256| hex(h@) != digits by {
                    lemma_hex_len(h@);
                }
            }
            return None;
        }
        let mut bytes = [0u8;32];
        let mut i: usize = 0;
        while i < 32
            invariant
                0 <= i <= 32,
                text.is_ascii(),
                len == text@.len(),
                len - start == 64,
                digits == text@.subrange(start as int, len as int),
                digits == digest_digits(text@),
                forall|k: int|
                    0 <= k < i ==> hex_byte(#[trigger] bytes[k]) == seq![
                        digits[2 * k],
                        digits[2 * k + 1],
                    ],
            decreases 32 - i,
        {
            let ghost high = text@[start + 2 * i];
            let ghost low = text@[start + 2 * i + 1];
            assert(digits[2 * i] == high && digits[2 * i + 1] == low);
            match read_hex_byte(text, start + 2 * i) {
                Some(b) => {
                    proof {
                        lemma_byte_of_hex(high, low);
                    }
                    bytes[i] = b;
                },
                None => {
                    proof {
                        assert forall|h: H256| hex(h@) != digits by {
                            if hex(h@) == digits {
                                assert(h@.len() == 32);
                                lemma_hex_index(h@, i as int);
                                lemma_hex_byte(h@[i as int]);
                                assert(hex(h@)[2 * i] == high);
                                assert(hex(h@)[2 * i + 1] == low);
                            }
                        }
                    }
                    return None;
                },
            }
            i = i + 1;
        }
        let h = H256(bytes);
        proof {
            lemma_hex_len(h@);
            assert forall|j: int| 0 <= j < 64 implies hex(h@)[j] == digits[j] by {
                let k = j / 2;
                lemma_hex_index(h@, k);
                assert(hex_byte(bytes[k]) == seq![digits[2 * k], digits[2 * k + 1]]);
                assert(hex_byte(bytes[k])[0] == digits[2 * k]);
                assert(hex_byte(bytes[k])[1] == digits[2 * k + 1]);
            }
            assert(hex(h@) =~= digits);
            let found = choose|any: H256| #[trigger] hex(any@) == digest_digits(text@);
            H256::lemma_hex_injective(found, h);
        }
        Some(h)
    }

    /// Writes the digest in 64 hexadecimal digits, in lower case.
    pub fn to_hex(&self) -> (text: String)
        ensures
            text@ == hex(self@),
    {
        let mut text = String::new();
        let mut i: usize = 0;
        while i < 32
            invariant
                0 <= i <= 32,
                text@ == hex(self@.subrange(0, i as int)),
            decreases 32 - i,
        {
            proof {
                assert(self@.subrange(0, i + 1).drop_last() =~= self@.subrange(0, i as int));
                assert(self@.subrange(0, i + 1).last() == self@[i as int]);
            }
            push_hex_byte(&mut text, self.0[i]);
            i = i + 1;
        }
        proof {
            assert(self@.subrange(0, 32) =~= self@);
        }
        text
    }

    /// Reading what was written gives the digest back, and nothing else is
    /// read as it.
    pub proof fn lemma_hex_round_trip(h: H256, read: Option<H256>, text: Seq<char>)
        requires
            text == hex(h@) || text == hex_mark() + hex(h@),
            match read {
                Some(found) => hex(found@) == digest_digits(text),
                None => forall|any: H256| hex(any@) != digest_digits(text),
            },
        ensures
            read == Some(h),
    {
        lemma_hex_len(h@);
        if text == hex(h@) {
            if word_at(text, 0, hex_mark()) {
                lemma_hex_index(h@, 0);
                lemma_hex_byte(h@[0]);
                assert(text.subrange(0, 2)[1] == text[1]);
                assert(hex_mark()[1] == 'x');
            }
        } else {
            assert(text.subrange(0, 2) =~= hex_mark());
            assert(text.subrange(2, text.len() as int) =~= hex(h@));
        }
        assert(digest_digits(text) == hex(h@));
        H256::lemma_hex_injective(read->Some_0, h);
    }

    /// Two digests with the same hexadecimal text are the same digest.
    pub proof fn lemma_hex_injective(a: H256, b: H256)
        requires
            hex(a@) == hex(b@),
        ensures
            a == b,
    {
        assert forall|k: int| 0 <= k < 32 implies a.0[k] == b.0[k] by {
            lemma_hex_index(a@, k);
            lemma_hex_index(b@, k);
            lemma_hex_byte(a@[k]);
            lemma_hex_byte(b@[k]);
        }
        assert(a.0 =~= b.0);
    }
}

/// A value that was found where another was expected.
#[derive(Clone, Copy, Debug, PartialEq, Eq)]
pub struct Mismatch<T> {
    pub expected: T,
    pub found: T,
}

impl<T> Mismatch<T> {
    /// The mismatch of what was expected and what was found.
    pub fn new(expected: T, found: T) -> (m: Mismatch<T>)
        ensures
            m.expected == expected,
            m.found == found,
    {
        Mismatch { expected, found }
    }
}

/// `sha2::Sha256::digest`: the SHA-256 digest of `data`, 32 bytes. The
/// contract gives the digest its name, `sha256`, and claims no more of it
/// than that equal data have equal digests.
#[verifier::external_body]
fn sha256_digest(data: &[u8]) -> (out: [u8; 32])
    ensures
        out@ == sha256(data@),
{
    Sha256::digest(data).into()
}

/// The SHA-256 digest of `data`.
pub fn digest_of(data: &[u8]) -> (h: H256)
    ensures
        h@ == sha256(data@),
{
    H256(sha256_digest(data))
}

/// Holds a digest that was found against the one that was expected: the
/// mismatch names both.
pub fn compare_hash(found: H256, expected: H256) -> (r: Result<(), Mismatch<H256>>)
    ensures
        match r {
            Ok(_) => found == expected,
            Err(m) => found != expected && m.expected == expected && m.found == found,
        },
{
    if expected != found {
        Err(Mismatch::new(expected, found))
    } else {
        Ok(())
    }
}

/// Checks that `bytes` have the SHA-256 digest `expected`.
pub fn check_hashsum(bytes: &[u8], expected: H256) -> (r: Result<(), Mismatch<H256>>)
    ensures
        match r {
            Ok(_) => sha256(bytes@) == expected@,
            Err(m) => sha256(bytes@) != expected@ && m.expected == expected && m.found@ == sha256(
                bytes@,
            ),
        },
{
    let found = digest_of(bytes);
    proof {
        if found@ == expected@ {
            H256::lemma_view_injective(found, expected);
        }
    }
    compare_hash(found, expected)
}

} // verus!
