use vstd::prelude::*;

use crate::chunk_type::spec_first_invalid_byte;
use crate::chunk_type::ChunkType;
use crate::chunk_type::ChunkTypeParseError;
use crate::encoding::lemma_be_u32_round_trip;
use crate::encoding::lemma_u32_be_round_trip;
use crate::encoding::push_u32_be;
use crate::encoding::spec_u32_from_be;
use crate::encoding::spec_u32_to_be;
use crate::encoding::u32_from_be;
use crate::string_from_utf8;
use vstd::utf8::decode_utf8;
use vstd::utf8::valid_utf8;

verus! {

/// What an outside observer sees of the checksum: the CRC-32 (ISO-HDLC
/// polynomial) of a byte sequence, as the `crc` crate computes it.
pub uninterp spec fn crc32_of(bytes: Seq<u8>) -> u32;

/// Relies on `crc::Crc::<u32>::checksum` with the `CRC_32_ISO_HDLC`
/// algorithm of the `crc` crate: the checksum is a function of the input
/// bytes alone.
#[verifier::external_body]
pub(crate) fn crc32_checksum(bytes: &Vec<u8>) -> (r: u32)
    ensures
        r == crc32_of(bytes@),
{
    crc::Crc::<u32>::new(&crc::CRC_32_ISO_HDLC).checksum(bytes.as_slice())
}

/// The mathematical content of a chunk: its four type bytes and its
/// payload. Length and checksum are derived from these.
#[verifier::ext_equal]
pub ghost struct ChunkModel {
    pub type_bytes: Seq<u8>,
    pub data: Seq<u8>,
}

impl ChunkModel {
    /// A well-formed chunk: four ASCII-letter type bytes, and a payload
    /// whose length fits the 32-bit length field.
    pub open spec fn wf(self) -> bool {
        &&& self.type_bytes.len() == 4
    &&& spec_first_invalid_byte(self.type_bytes) is None
    &&& self.data.len() <= u32::MAX
    }

    /// The chunk's checksum: the CRC-32 of its type bytes and payload.
    pub open spec fn crc(self) -> u32 {
        crc32_of(self.type_bytes + self.data)
    }

    /// The chunk's serialized form: big-endian length, type bytes, payload,
    /// big-endian checksum.
    #[verifier::opaque]
    pub open spec fn bytes(self) -> Seq<u8> {
        spec_u32_to_be(self.data.len() as u32) + self.type_bytes + self.data + spec_u32_to_be(
            self.crc(),
        )
    }
}

/// One length-prefixed, checksummed record: a type code and an opaque
/// payload, with the derived length and checksum fields it is stored with.
#[derive(Debug)]
pub struct Chunk {
    length: u32,
    chunk_type: ChunkType,
    data: Vec<u8>,
    crc: u32,
}

/// Why a byte sequence is not a chunk.
#[derive(Debug, Clone, Copy, PartialEq, Eq)]
pub enum ChunkParseError {
    /// The input is shorter than the twelve bytes any chunk needs.
    Incomplete,
    /// The declared length disagrees with the input's size; carries the
    /// size-derived value and the declared one.
    InvalidLengthField { expected: u32, found: u32 },
    /// The type field is not four ASCII letters.
    InvalidChunkType(ChunkTypeParseError),
    /// The declared checksum disagrees with the recomputed one.
    InvalidChecksum,
}

/// What parsing a byte sequence as a chunk yields, checked in this order:
/// the twelve-byte minimum, the length field against the input's size, the
/// type field's alphabet, and the declared checksum against the recomputed
/// one.
pub open spec fn spec_parse_chunk(b: Seq<u8>) -> Result<ChunkModel, ChunkParseError> {
    if b.len() < 12 {
        Err(ChunkParseError::Incomplete)
    } else {
        let declared = spec_u32_from_be(b.subrange(0, 4));
        if declared != b.len() - 12 {
            Err(
                ChunkParseError::InvalidLengthField {
                    expected: (b.len() - 12) as u32,
                    found: declared,
                },
            )
        } else {
            match spec_first_invalid_byte(b.subrange(4, 8)) {
                Some(bad) => Err(
                    ChunkParseError::InvalidChunkType(ChunkTypeParseError::InvalidByte(bad)),
                ),
                None => {
                    let m = ChunkModel {
                        type_bytes: b.subrange(4, 8),
                        data: b.subrange(8, b.len() - 4),
                    };
                    if spec_u32_from_be(b.subrange(b.len() - 4, b.len() as int)) != m.crc() {
                        Err(ChunkParseError::InvalidChecksum)
                    } else {
                        Ok(m)
                    }
                },
            }
        }
    }
}

impl View for Chunk {
    type V = ChunkModel;

    closed spec fn view(&self) -> ChunkModel {
        ChunkModel { type_bytes: self.chunk_type@, data: self.data@ }
    }
}

impl Chunk {
    /// The stored fields are never set independently: the length is the
    /// payload's, and the checksum is the CRC-32 of type bytes and payload.
    #[verifier::type_invariant]
    pub closed spec fn wf(&self) -> bool {
        &&& self@.wf()
    &&& self.length == self@.data.len()
    &&& self.crc == self@.crc()
    }

    /// Builds a chunk from a type code and a payload, computing the length
    /// and checksum fields.
    pub fn new(chunk_type: ChunkType, data: Vec<u8>) -> (r: Chunk)
        requires
            data@.len() <= u32::MAX,
        ensures
            r@ == (ChunkModel { type_bytes: chunk_type@, data: data@ }),
    {
        proof {
            use_type_invariant(&chunk_type);
            crate::chunk_type::lemma_first_invalid_byte_complete(chunk_type@);
        }
        let tb = chunk_type.bytes();
        let mut crc_input: Vec<u8> = Vec::new();
        crc_input.push(tb[0]);
        crc_input.push(tb[1]);
        crc_input.push(tb[2]);
        crc_input.push(tb[3]);
        proof {
            assert(crc_input@ =~= chunk_type@ + data@.subrange(0, 0));
        }
        let mut i: usize = 0;
        while i < data.len()
            invariant
                0 <= i <= data@.len(),
                crc_input@ == chunk_type@ + data@.subrange(0, i as int),
            decreases data@.len() - i,
        {
            crc_input.push(data[i]);
            proof {
                assert(crc_input@ =~= chunk_type@ + data@.subrange(0, i + 1));
            }
            i += 1;
        }
        proof {
            assert(crc_input@ =~= chunk_type@ + data@);
        }
        let crc = crc32_checksum(&crc_input);
        let length = data.len() as u32;
        Chunk { length, chunk_type, data, crc }
    }

    /// The length field: always the payload's length.
    pub fn length(&self) -> (r: u32)
        ensures
            r == self@.data.len(),
    {
        proof {
            use_type_invariant(self);
        }
        self.length
    }

    /// The chunk's type code.
    pub fn chunk_type(&self) -> (r: &ChunkType)
        ensures
            r@ == self@.type_bytes,
    {
        &self.chunk_type
    }

    /// The chunk's payload.
    pub fn data(&self) -> (r: &[u8])
        ensures
            r@ == self@.data,
    {
        self.data.as_slice()
    }

    /// The checksum field: always the CRC-32 of type bytes and payload.
    pub fn crc(&self) -> (r: u32)
        ensures
            r == self@.crc(),
    {
        proof {
            use_type_invariant(self);
        }
        self.crc
    }

    /// The payload read as UTF-8 text; `None` exactly when the payload is
    /// not valid UTF-8.
    pub fn data_as_string(&self) -> (r: Option<String>)
        ensures
            r is Some <==> valid_utf8(self@.data),
            match r {
                Some(s) => s@ == decode_utf8(self@.data),
                None => true,
            },
    {
        string_from_utf8(&self.data)
    }

    /// Serializes the chunk: big-endian length, type bytes, payload,
    /// big-endian checksum.
    pub fn as_bytes(&self) -> (r: Vec<u8>)
        ensures
            r@ == self@.bytes(),
    {
        proof {
            use_type_invariant(self);
        }
        let mut out: Vec<u8> = Vec::new();
        push_u32_be(&mut out, self.length);
        let tb = self.chunk_type.bytes();
        out.push(tb[0]);
        out.push(tb[1]);
        out.push(tb[2]);
        out.push(tb[3]);
        proof {
            assert(out@ =~= spec_u32_to_be(self.length) + self@.type_bytes + self@.data.subrange(
                0,
                0,
            ));
        }
        let mut i: usize = 0;
        while i < self.data.len()
            invariant
                0 <= i <= self@.data.len(),
                self.length == self@.data.len(),
                self.crc == self@.crc(),
                out@ == spec_u32_to_be(self.length) + self@.type_bytes + self@.data.subrange(
                    0,
                    i as int,
                ),
            decreases self@.data.len() - i,
        {
            out.push(self.data[i]);
            proof {
                assert(out@ =~= spec_u32_to_be(self.length) + self@.type_bytes
                    + self@.data.subrange(0, i + 1));
            }
            i += 1;
        }
        push_u32_be(&mut out, self.crc);
        proof {
            reveal(ChunkModel::bytes);
            assert(out@ =~= self@.bytes());
        }
        out
    }

    /// Parses a byte sequence as one chunk, verifying its length field and
    /// checksum, exactly as `spec_parse_chunk` says.
    pub fn parse(value: &[u8]) -> (r: Result<Chunk, ChunkParseError>)
        ensures
            match r {
                Ok(c) => spec_parse_chunk(value@) == Ok::<ChunkModel, ChunkParseError>(c@),
                Err(e) => spec_parse_chunk(value@) == Err::<ChunkModel, ChunkParseError>(e),
            },
    {
        let n = value.len();
        if n < 12 {
            return Err(ChunkParseError::Incomplete);
        }
        let declared = u32_from_be(value[0], value[1], value[2], value[3]);
        proof {
            assert(value@.subrange(0, 4) =~= seq![value@[0], value@[1], value@[2], value@[3]]);
        }
        if (declared as u64) != (n as u64) - 12 {
            return Err(
                ChunkParseError::InvalidLengthField {
                    expected: #[verifier::truncate] ((n - 12) as u32),
                    found: declared,
                },
            );
        }
        let t: [u8; 4] = [value[4], value[5], value[6], value[7]];
        proof {
            assert(t@ =~= value@.subrange(4, 8));
        }
        let chunk_type = match ChunkType::parse(t) {
            Ok(ct) => ct,
            Err(e) => {
                return Err(ChunkParseError::InvalidChunkType(e));
            },
        };
        let mut data: Vec<u8> = Vec::new();
        let mut i: usize = 8;
        while i < n - 4
            invariant
                8 <= i <= n - 4,
                12 <= n == value@.len(),
                data@ == value@.subrange(8, i as int),
            decreases n - 4 - i,
        {
            data.push(value[i]);
            proof {
                assert(data@ =~= value@.subrange(8, i + 1));
            }
            i += 1;
        }
        let declared_crc = u32_from_be(value[n - 4], value[n - 3], value[n - 2], value[n - 1]);
        proof {
            assert(value@.subrange(n - 4, n as int) =~= seq![
                value@[n - 4],
                value@[n - 3],
                value@[n - 2],
                value@[n - 1],
            ]);
        }
        let chunk = Self::new(chunk_type, data);
        if declared_crc != chunk.crc() {
            return Err(ChunkParseError::InvalidChecksum);
        }
        proof {
            assert(chunk@ =~= (ChunkModel {
                type_bytes: value@.subrange(4, 8),
                data: value@.subrange(8, value@.len() - 4),
            }));
        }
        Ok(chunk)
    }
}

/// The checksum is a pure function of the type bytes and the payload:
/// chunks built from equal inputs carry equal checksums.
pub proof fn lemma_crc_deterministic(m1: ChunkModel, m2: ChunkModel)
    requires
        m1.type_bytes == m2.type_bytes,
        m1.data == m2.data,
    ensures
        m1.crc() == m2.crc(),
{
}

/// Round trip: parsing the serialized bytes of a well-formed chunk yields
/// the chunk back, with length, type, payload and checksum intact.
pub proof fn lemma_chunk_round_trip(m: ChunkModel)
    requires
        m.wf(),
    ensures
        spec_parse_chunk(m.bytes()) == Ok::<ChunkModel, ChunkParseError>(m),
{
    reveal(ChunkModel::bytes);
    let b = m.bytes();
    assert(b.len() == 12 + m.data.len());
    lemma_u32_be_round_trip(m.data.len() as u32);
    lemma_u32_be_round_trip(m.crc());
    assert(b.subrange(0, 4) =~= spec_u32_to_be(m.data.len() as u32));
    assert(b.subrange(4, 8) =~= m.type_bytes);
    assert(b.subrange(8, b.len() - 4) =~= m.data);
    assert(b.subrange(b.len() - 4, b.len() as int) =~= spec_u32_to_be(m.crc()));
    assert((ChunkModel { type_bytes: b.subrange(4, 8), data: b.subrange(8, b.len() - 4) }) =~= m);
}

/// Serialization inverts a successful parse exactly: the parsed chunk is
/// well formed and its serialized bytes are the input.
pub proof fn lemma_chunk_parse_inverse(b: Seq<u8>)
    requires
        spec_parse_chunk(b) is Ok,
    ensures
        spec_parse_chunk(b) matches Ok(m) ==> m.wf() && m.bytes() == b,
{
    reveal(ChunkModel::bytes);
    let m = spec_parse_chunk(b)->Ok_0;
    let declared = spec_u32_from_be(b.subrange(0, 4));
    assert(declared == b.len() - 12);
    assert(m.data.len() == b.len() - 12);
    lemma_be_u32_round_trip(b[0], b[1], b[2], b[3]);
    assert(b.subrange(0, 4) =~= seq![b[0], b[1], b[2], b[3]]);
    assert(spec_u32_to_be(m.data.len() as u32) =~= b.subrange(0, 4));
    let nc = b.len() - 4;
    lemma_be_u32_round_trip(b[nc], b[nc + 1], b[nc + 2], b[nc + 3]);
    assert(b.subrange(nc, b.len() as int) =~= seq![b[nc], b[nc + 1], b[nc + 2], b[nc + 3]]);
    assert(spec_u32_to_be(m.crc()) =~= b.subrange(nc, b.len() as int));
    assert(m.bytes() =~= b);
}

} // verus!
