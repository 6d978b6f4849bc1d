//! The four-byte chunk type tag and the flags carried by its letter case.

use std::str::FromStr;

use vstd::prelude::*;
use vstd::string::StringSliceAdditionalSpecFns;
use vstd::utf8::valid_utf8;

use crate::text::{all_ascii, chars_of_bytes, lemma_ascii_decodes, string_from_utf8};

verus! {

/// True when `b` is an ASCII letter, `A`..=`Z` or `a`..=`z`.
pub open spec fn is_alpha(b: u8) -> bool {
    (0x41 <= b && b <= 0x5a) || (0x61 <= b && b <= 0x7a)
}

/// True when `s` is four ASCII letters.
pub open spec fn all_alpha(s: Seq<u8>) -> bool {
    s.len() == 4 && forall|i: int| 0 <= i < 4 ==> is_alpha(#[trigger] s[i])
}

/// True when the case bit (bit 5) of `b` is clear: for a letter, upper case.
pub open spec fn case_bit_clear(b: u8) -> bool {
    b & 0x20 == 0
}

/// The first byte of a four-byte tag that is not an ASCII letter, if any.
pub open spec fn first_bad_byte(s: Seq<u8>) -> Option<u8> {
    if !is_alpha(s[0]) {
        Some(s[0])
    } else if !is_alpha(s[1]) {
        Some(s[1])
    } else if !is_alpha(s[2]) {
        Some(s[2])
    } else if !is_alpha(s[3]) {
        Some(s[3])
    } else {
        None
    }
}

/// The outcome of building a tag from four bytes.
pub open spec fn tag_from_bytes(s: Seq<u8>) -> Result<Seq<u8>, ChunkTypeError> {
    match first_bad_byte(s) {
        Some(b) => Err(ChunkTypeError::BadByte(b)),
        None => Ok(s),
    }
}

/// Four bytes make a tag exactly when all are ASCII letters; otherwise the
/// error reports the first byte that is not a letter.
pub proof fn lemma_tag_validity(b: Seq<u8>)
    requires
        b.len() == 4,
    ensures
        all_alpha(b) ==> tag_from_bytes(b) == Ok::<Seq<u8>, ChunkTypeError>(b),
        !all_alpha(b) ==> exists|i: int|
            0 <= i < 4 && !is_alpha(#[trigger] b[i]) && (forall|j: int| 0 <= j < i ==> is_alpha(b[j]))
                && tag_from_bytes(b) == Err::<Seq<u8>, ChunkTypeError>(ChunkTypeError::BadByte(b[i])),
{
    if !all_alpha(b) {
        if !is_alpha(b[0]) {
            assert(!is_alpha(b[0]));
        } else if !is_alpha(b[1]) {
            assert(!is_alpha(b[1]));
        } else if !is_alpha(b[2]) {
            assert(!is_alpha(b[2]));
        } else {
            assert(!is_alpha(b[3]));
        }
    }
}

/// Why a chunk type could not be built.
#[derive(Debug, Clone, PartialEq, Eq)]
pub enum ChunkTypeError {
    /// A byte that is not an ASCII letter.
    BadByte(u8),
    /// A text whose byte length is not four, with that length.
    BadLength(String, usize),
}

/// A chunk type: four ASCII letters, each case bit a flag.
#[derive(Debug, Clone, Copy, PartialEq, Eq)]
pub struct ChunkType {
    data: [u8; 4],
}

impl View for ChunkType {
    type V = Seq<u8>;

    closed spec fn view(&self) -> Seq<u8> {
        self.data@
    }
}

impl ChunkType {
    #[verifier::type_invariant]
    spec fn letters(&self) -> bool {
        all_alpha(self.data@)
    }

    /// The four bytes of the tag.
    pub fn bytes(&self) -> (r: [u8; 4])
        ensures
            r@ == self@,
            all_alpha(r@),
    {
        proof {
            use_type_invariant(self);
        }
        self.data
    }

    /// Upper case first letter: the chunk is critical.
    pub fn is_critical(&self) -> (r: bool)
        ensures
            r == case_bit_clear(self@[0]),
    {
        proof {
            use_type_invariant(self);
        }
        Self::bit_is_zero(self.data[0], 5)
    }

    /// Upper case second letter: the chunk is public.
    pub fn is_public(&self) -> (r: bool)
        ensures
            r == case_bit_clear(self@[1]),
    {
        proof {
            use_type_invariant(self);
        }
        Self::bit_is_zero(self.data[1], 5)
    }

    /// Upper case third letter: the reserved bit is as the format asks.
    pub fn is_reserved_bit_valid(&self) -> (r: bool)
        ensures
            r == case_bit_clear(self@[2]),
    {
        proof {
            use_type_invariant(self);
        }
        Self::bit_is_zero(self.data[2], 5)
    }

    /// Lower case fourth letter: the chunk is safe to copy.
    pub fn is_safe_to_copy(&self) -> (r: bool)
        ensures
            r == !case_bit_clear(self@[3]),
    {
        proof {
            use_type_invariant(self);
        }
        !Self::bit_is_zero(self.data[3], 5)
    }

    /// Four letters with the reserved bit valid.
    pub fn is_valid(&self) -> (r: bool)
        ensures
            r == (case_bit_clear(self@[2]) && all_alpha(self@)),
    {
        let b = self.bytes();
        self.is_reserved_bit_valid() && Self::is_valid_byte(b[0]) && Self::is_valid_byte(b[1])
            && Self::is_valid_byte(b[2]) && Self::is_valid_byte(b[3])
    }

    /// True when `byte` is an ASCII letter.
    pub fn is_valid_byte(byte: u8) -> (r: bool)
        ensures
            r == is_alpha(byte),
    {
        (0x41 <= byte && byte <= 0x5a) || (0x61 <= byte && byte <= 0x7a)
    }

    fn bit_is_zero(byte: u8, n: u8) -> (r: bool)
        requires
            n < 8,
        ensures
            r == (byte & (1u8 << n) == 0),
            n == 5 ==> r == case_bit_clear(byte),
    {
        let mask: u8 = 1u8 << n;
        assert(n == 5 ==> mask == 0x20) by (bit_vector)
            requires
                mask == 1u8 << n,
        ;
        byte & mask == 0
    }

    /// Builds a tag from four bytes, refusing the first that is not a letter.
    pub fn from_bytes(bytes: [u8; 4]) -> (r: Result<ChunkType, ChunkTypeError>)
        ensures
            match r {
                Ok(t) => tag_from_bytes(bytes@) == Ok::<Seq<u8>, ChunkTypeError>(t@),
                Err(e) => tag_from_bytes(bytes@) == Err::<Seq<u8>, ChunkTypeError>(e),
            },
    {
        let mut i: usize = 0;
        while i < 4
            invariant
                0 <= i <= 4,
                forall|j: int| 0 <= j < i ==> is_alpha(#[trigger] bytes@[j]),
            decreases 4 - i,
        {
            if !Self::is_valid_byte(bytes[i]) {
                assert(first_bad_byte(bytes@) == Some(bytes@[i as int])) by {
                    assert(i == 0 || is_alpha(bytes@[0]));
                    assert(i <= 1 || is_alpha(bytes@[1]));
                    assert(i <= 2 || is_alpha(bytes@[2]));
                }
                return Err(ChunkTypeError::BadByte(bytes[i]));
            }
            i = i + 1;
        }
        assert(is_alpha(bytes@[0]) && is_alpha(bytes@[1]) && is_alpha(bytes@[2]) && is_alpha(bytes@[3]));
        Ok(ChunkType { data: bytes })
    }

    /// Builds a tag from a text of exactly four bytes, all ASCII letters.
    pub fn from_text(s: &str) -> (r: Result<ChunkType, ChunkTypeError>)
        ensures
            s.spec_bytes().len() != 4 ==> match r {
                Err(ChunkTypeError::BadLength(t, n)) => t@ == s@ && n == s.spec_bytes().len(),
                _ => false,
            },
            s.spec_bytes().len() == 4 ==> match r {
                Ok(t) => tag_from_bytes(s.spec_bytes()) == Ok::<Seq<u8>, ChunkTypeError>(t@),
                Err(e) => tag_from_bytes(s.spec_bytes()) == Err::<Seq<u8>, ChunkTypeError>(e),
            },
    {
        let b = s.as_bytes();
        let len = b.len();
        if len != 4 {
            return Err(ChunkTypeError::BadLength(s.to_owned(), len));
        }
        let bytes: [u8; 4] = [b[0], b[1], b[2], b[3]];
        assert(bytes@ =~= s.spec_bytes());
        Self::from_bytes(bytes)
    }

    /// The tag as text, one character per byte.
    pub fn to_string(&self) -> (r: String)
        ensures
            r@ == chars_of_bytes(self@),
    {
        proof {
            use_type_invariant(self);
        }
        let v: Vec<u8> = vec![self.data[0], self.data[1], self.data[2], self.data[3]];
        assert(v@ =~= self.data@);
        proof {
            assert(all_ascii(v@));
            lemma_ascii_decodes(v@);
        }
        match string_from_utf8(v) {
            Ok(s) => s,
            Err(_) => {
                proof {
                    assert(valid_utf8(self.data@));
                }
                String::new()
            },
        }
    }
}

impl TryFrom<[u8; 4]> for ChunkType {
    type Error = ChunkTypeError;

    fn try_from(bytes: [u8; 4]) -> (r: Result<ChunkType, ChunkTypeError>)
        ensures
            match r {
                Ok(t) => tag_from_bytes(bytes@) == Ok::<Seq<u8>, ChunkTypeError>(t@),
                Err(e) => tag_from_bytes(bytes@) == Err::<Seq<u8>, ChunkTypeError>(e),
            },
    {
        let r = ChunkType::from_bytes(bytes);
        proof {
            if let Ok(t) = r {
                assert(t.data@ =~= bytes@);
                assert(t.data == bytes);
            }
        }
        r
    }
}

impl vstd::std_specs::convert::TryFromSpecImpl<[u8; 4]> for ChunkType {
    open spec fn obeys_try_from_spec() -> bool {
        true
    }

    closed spec fn try_from_spec(bytes: [u8; 4]) -> Result<ChunkType, ChunkTypeError> {
        match tag_from_bytes(bytes@) {
            Ok(_) => Ok(ChunkType { data: bytes }),
            Err(e) => Err(e),
        }
    }
}

impl FromStr for ChunkType {
    type Err = ChunkTypeError;

    fn from_str(s: &str) -> (r: Result<ChunkType, ChunkTypeError>)
        ensures
            s.spec_bytes().len() != 4 ==> match r {
                Err(ChunkTypeError::BadLength(t, n)) => t@ == s@ && n == s.spec_bytes().len(),
                _ => false,
            },
            s.spec_bytes().len() == 4 ==> match r {
                Ok(t) => tag_from_bytes(s.spec_bytes()) == Ok::<Seq<u8>, ChunkTypeError>(t@),
                Err(e) => tag_from_bytes(s.spec_bytes()) == Err::<Seq<u8>, ChunkTypeError>(e),
            },
    {
        ChunkType::from_text(s)
    }
}

} // verus!
