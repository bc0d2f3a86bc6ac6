use vstd::prelude::*;

use crate::byte_is_alpha;
use crate::is_alpha_byte;
use crate::string_from_utf8;
use vstd::string::StringSliceAdditionalSpecFns;
use vstd::utf8::decode_utf8;
use vstd::utf8::encode_utf8;
use vstd::utf8::valid_utf8;

verus! {

/// A four-byte chunk type code: four ASCII letters whose bit 5 (the case
/// bit) at each position carries one of the chunk's properties.
#[derive(Debug, Clone, Copy, PartialEq, Eq)]
pub struct ChunkType([u8; 4]);

/// Why a byte sequence is not a chunk type code.
#[derive(Debug, Clone, Copy, PartialEq, Eq)]
pub enum ChunkTypeParseError {
    /// The input was not exactly four bytes long; carries the length found.
    InvalidLength(usize),
    /// A byte of the input is not an ASCII letter; carries the first such byte.
    InvalidByte(u8),
}

/// The first byte of `t` that is not an ASCII letter, scanning left to
/// right, or `None` when every byte is a letter.
pub open spec fn spec_first_invalid_byte(t: Seq<u8>) -> Option<u8>
    decreases t.len(),
{
    if t.len() == 0 {
        None
    } else if !is_alpha_byte(t[0]) {
        Some(t[0])
    } else {
        spec_first_invalid_byte(t.drop_first())
    }
}

/// What parsing four bytes as a chunk type yields: the bytes themselves, or
/// the first byte that is not an ASCII letter.
pub open spec fn spec_parse_chunk_type(t: Seq<u8>) -> Result<Seq<u8>, ChunkTypeParseError> {
    match spec_first_invalid_byte(t) {
        Some(b) => Err(ChunkTypeParseError::InvalidByte(b)),
        None => Ok(t),
    }
}

/// When every byte of `t` is an ASCII letter, the scan finds nothing.
pub proof fn lemma_first_invalid_byte_none(t: Seq<u8>)
    requires
        forall|i: int| 0 <= i < t.len() ==> is_alpha_byte(#[trigger] t[i]),
    ensures
        spec_first_invalid_byte(t) is None,
    decreases t.len(),
{
    if t.len() > 0 {
        lemma_first_invalid_byte_none(t.drop_first());
    }
}

/// When position `i` holds the first byte of `t` that is not an ASCII
/// letter, the scan finds that byte.
pub proof fn lemma_first_invalid_byte_at(t: Seq<u8>, i: int)
    requires
        0 <= i < t.len(),
        !is_alpha_byte(t[i]),
        forall|j: int| 0 <= j < i ==> is_alpha_byte(#[trigger] t[j]),
    ensures
        spec_first_invalid_byte(t) == Some(t[i]),
    decreases t.len(),
{
    if i > 0 {
        lemma_first_invalid_byte_at(t.drop_first(), i - 1);
    }
}

/// When the scan finds nothing, every byte of `t` is an ASCII letter.
pub proof fn lemma_first_invalid_byte_complete(t: Seq<u8>)
    requires
        spec_first_invalid_byte(t) is None,
    ensures
        forall|i: int| 0 <= i < t.len() ==> is_alpha_byte(#[trigger] t[i]),
    decreases t.len(),
{
    if t.len() > 0 {
        lemma_first_invalid_byte_complete(t.drop_first());
        assert forall|i: int| 0 <= i < t.len() implies is_alpha_byte(#[trigger] t[i]) by {
            if i > 0 {
                assert(t.drop_first()[i - 1] == t[i]);
            }
        }
    }
}

impl View for ChunkType {
    type V = Seq<u8>;

    closed spec fn view(&self) -> Seq<u8> {
        self.0@
    }
}

impl ChunkType {
    /// Every constructed chunk type is four ASCII letters.
    #[verifier::type_invariant]
    pub open spec fn wf(&self) -> bool {
        self@.len() == 4 && spec_first_invalid_byte(self@) is None
    }

    /// Whether bit 5 of the byte at position `pos` is clear.
    pub open spec fn spec_bit5_clear(&self, pos: int) -> bool {
        self@[pos] & 0x20 == 0
    }

    /// Parses four bytes as a chunk type, rejecting the first byte that is
    /// not an ASCII letter.
    pub fn parse(value: [u8; 4]) -> (r: Result<ChunkType, ChunkTypeParseError>)
        ensures
            match r {
                Ok(t) => t@ == value@ && spec_parse_chunk_type(value@) == Ok::<
                    Seq<u8>,
                    ChunkTypeParseError,
                >(value@),
                Err(e) => spec_parse_chunk_type(value@) == Err::<Seq<u8>, ChunkTypeParseError>(e),
            },
    {
        let mut i: usize = 0;
        while i < 4
            invariant
                0 <= i <= 4,
                forall|j: int| 0 <= j < i ==> is_alpha_byte(#[trigger] value@[j]),
            decreases 4 - i,
        {
            if !byte_is_alpha(value[i]) {
                proof {
                    lemma_first_invalid_byte_at(value@, i as int);
                }
                return Err(ChunkTypeParseError::InvalidByte(value[i]));
            }
            i += 1;
        }
        proof {
            lemma_first_invalid_byte_none(value@);
        }
        Ok(ChunkType(value))
    }

    /// Parses a string as a chunk type: the string's bytes must be exactly
    /// four ASCII letters; a wrong byte length is rejected before the
    /// alphabet check.
    pub fn parse_str(s: &str) -> (r: Result<ChunkType, ChunkTypeParseError>)
        ensures
            match r {
                Ok(t) => s.spec_bytes().len() == 4 && t@ == s.spec_bytes()
                    && spec_parse_chunk_type(s.spec_bytes()) == Ok::<
                    Seq<u8>,
                    ChunkTypeParseError,
                >(s.spec_bytes()),
                Err(ChunkTypeParseError::InvalidLength(n)) => s.spec_bytes().len() != 4 && n
                    == s.spec_bytes().len(),
                Err(e) => s.spec_bytes().len() == 4 && spec_parse_chunk_type(s.spec_bytes())
                    == Err::<Seq<u8>, ChunkTypeParseError>(e),
            },
    {
        let bytes = s.as_bytes();
        if bytes.len() != 4 {
            return Err(ChunkTypeParseError::InvalidLength(bytes.len()));
        }
        let arr: [u8; 4] = [bytes[0], bytes[1], bytes[2], bytes[3]];
        proof {
            assert(arr@ =~= s.spec_bytes());
        }
        Self::parse(arr)
    }

    /// Whether two type codes hold the same four bytes.
    pub fn same_type(&self, other: &ChunkType) -> (r: bool)
        ensures
            r == (self@ == other@),
    {
        proof {
            use_type_invariant(self);
            use_type_invariant(other);
        }
        let a = self.bytes();
        let b = other.bytes();
        let r = a[0] == b[0] && a[1] == b[1] && a[2] == b[2] && a[3] == b[3];
        proof {
            if r {
                assert(self@ =~= other@);
            }
        }
        r
    }

    /// The four bytes making up the chunk type.
    pub fn bytes(&self) -> (r: [u8; 4])
        ensures
            r@ == self@,
    {
        self.0
    }

    /// The type code as text: the four ASCII letters as a string.
    pub fn to_string(&self) -> (r: String)
        ensures
            r@ == decode_utf8(self@),
            encode_utf8(r@) == self@,
    {
        proof {
            use_type_invariant(self);
        }
        let mut v: Vec<u8> = Vec::new();
        v.push(self.0[0]);
        v.push(self.0[1]);
        v.push(self.0[2]);
        v.push(self.0[3]);
        proof {
            assert(v@ =~= self@);
            lemma_first_invalid_byte_complete(self@);
            crate::lemma_alpha_bytes_valid_utf8(self@);
            vstd::utf8::decode_utf8_encode_utf8(self@);
        }
        let r = string_from_utf8(&v);
        match r {
            Some(s) => s,
            None => {
                proof {
                    assert(false);
                }
                String::new()
            },
        }
    }

    /// Overall validity in this format: the reserved bit alone decides.
    pub fn is_valid(&self) -> (r: bool)
        ensures
            r == self.spec_bit5_clear(2),
    {
        self.is_reserved_bit_valid()
    }

    /// Bit 5 of the first byte clear: the chunk is critical, not ancillary.
    pub fn is_critical(&self) -> (r: bool)
        ensures
            r == self.spec_bit5_clear(0),
    {
        self.0[0] & 0x20 == 0
    }

    /// Bit 5 of the second byte clear: the chunk is public, not private.
    pub fn is_public(&self) -> (r: bool)
        ensures
            r == self.spec_bit5_clear(1),
    {
        self.0[1] & 0x20 == 0
    }

    /// Bit 5 of the third byte clear: the reserved bit is conformant.
    pub fn is_reserved_bit_valid(&self) -> (r: bool)
        ensures
            r == self.spec_bit5_clear(2),
    {
        self.0[2] & 0x20 == 0
    }

    /// Bit 5 of the fourth byte set: the chunk is safe to copy.
    pub fn is_safe_to_copy(&self) -> (r: bool)
        ensures
            r == !self.spec_bit5_clear(3),
    {
        !(self.0[3] & 0x20 == 0)
    }
}

} // verus!
