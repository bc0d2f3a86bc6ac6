use vstd::prelude::*;

use crate::chunk::spec_parse_chunk;
use crate::chunk::Chunk;
use crate::chunk::ChunkModel;
use crate::chunk::ChunkParseError;
use crate::chunk::lemma_chunk_round_trip;
use crate::chunk_type::ChunkType;
use crate::encoding::lemma_u32_be_round_trip;
use crate::encoding::spec_u32_from_be;
use crate::encoding::u32_from_be;

verus! {

/// The eight fixed signature bytes that open every serialized container.
pub open spec fn spec_signature() -> Seq<u8> {
    seq![137u8, 80u8, 78u8, 71u8, 13u8, 10u8, 26u8, 10u8]
}

/// The signature as an array of bytes.
pub fn signature() -> (r: [u8; 8])
    ensures
        r@ == spec_signature(),
{
    let r: [u8; 8] = [137u8, 80u8, 78u8, 71u8, 13u8, 10u8, 26u8, 10u8];
    proof {
        assert(r@ =~= spec_signature());
    }
    r
}

/// Why a byte stream is not a container.
#[derive(Debug, Clone, Copy, PartialEq, Eq)]
pub enum PngParseError {
    /// The stream does not open with the eight signature bytes.
    InvalidSignature,
    /// A chunk of the stream is malformed; carries the first chunk error.
    InvalidChunk(ChunkParseError),
}

/// Failure of removal: no chunk of the requested type is present.
#[derive(Debug, Clone, Copy, PartialEq, Eq)]
pub struct ChunkNotFoundError;

/// The serialized form of a chunk sequence: each chunk's bytes in order.
pub open spec fn spec_chunks_bytes(cs: Seq<ChunkModel>) -> Seq<u8>
    decreases cs.len(),
{
    if cs.len() == 0 {
        Seq::empty()
    } else {
        cs[0].bytes() + spec_chunks_bytes(cs.drop_first())
    }
}

/// The serialized form of a container: the signature, then the chunks.
pub open spec fn spec_png_bytes(cs: Seq<ChunkModel>) -> Seq<u8> {
    spec_signature() + spec_chunks_bytes(cs)
}

/// What parsing a byte stream as a chunk sequence yields: chunks cut off by
/// their declared lengths, parsed in turn until the input is exhausted,
/// stopping at the first failure. A trailing fragment that cannot hold the
/// chunk its length field declares is incomplete.
pub open spec fn spec_parse_chunks(b: Seq<u8>) -> Result<Seq<ChunkModel>, ChunkParseError>
    decreases b.len(),
{
    if b.len() == 0 {
        Ok(Seq::empty())
    } else if b.len() < 12 {
        Err(ChunkParseError::Incomplete)
    } else {
        let size = 12 + spec_u32_from_be(b.subrange(0, 4));
        if b.len() < size {
            Err(ChunkParseError::Incomplete)
        } else {
            match spec_parse_chunk(b.subrange(0, size as int)) {
                Err(e) => Err(e),
                Ok(m) => match spec_parse_chunks(b.subrange(size as int, b.len() as int)) {
                    Err(e) => Err(e),
                    Ok(rest) => Ok(seq![m] + rest),
                },
            }
        }
    }
}

/// What parsing a byte stream as a container yields: the signature is
/// checked first, then the rest is read as a chunk sequence.
pub open spec fn spec_parse_png(b: Seq<u8>) -> Result<Seq<ChunkModel>, PngParseError> {
    if b.len() < 8 || b.subrange(0, 8) != spec_signature() {
        Err(PngParseError::InvalidSignature)
    } else {
        match spec_parse_chunks(b.subrange(8, b.len() as int)) {
            Ok(cs) => Ok(cs),
            Err(e) => Err(PngParseError::InvalidChunk(e)),
        }
    }
}

/// The position of the first chunk of `cs` whose type bytes are `t`, or
/// `None` when no chunk has that type.
pub open spec fn spec_first_match(cs: Seq<ChunkModel>, t: Seq<u8>) -> Option<int>
    decreases cs.len(),
{
    if cs.len() == 0 {
        None
    } else if cs[0].type_bytes == t {
        Some(0int)
    } else {
        match spec_first_match(cs.drop_first(), t) {
            Some(i) => Some(i + 1),
            None => None,
        }
    }
}

/// When no chunk of `cs` has type `t`, the search finds nothing.
pub proof fn lemma_first_match_none(cs: Seq<ChunkModel>, t: Seq<u8>)
    requires
        forall|j: int| 0 <= j < cs.len() ==> (#[trigger] cs[j]).type_bytes != t,
    ensures
        spec_first_match(cs, t) is None,
    decreases cs.len(),
{
    if cs.len() > 0 {
        lemma_first_match_none(cs.drop_first(), t);
    }
}

/// When position `i` holds the first chunk of type `t`, the search finds it.
pub proof fn lemma_first_match_at(cs: Seq<ChunkModel>, t: Seq<u8>, i: int)
    requires
        0 <= i < cs.len(),
        cs[i].type_bytes == t,
        forall|j: int| 0 <= j < i ==> (#[trigger] cs[j]).type_bytes != t,
    ensures
        spec_first_match(cs, t) == Some(i),
    decreases cs.len(),
{
    if i > 0 {
        lemma_first_match_at(cs.drop_first(), t, i - 1);
    }
}

/// When the search finds nothing, no chunk of `cs` has type `t`.
pub proof fn lemma_first_match_complete(cs: Seq<ChunkModel>, t: Seq<u8>)
    requires
        spec_first_match(cs, t) is None,
    ensures
        forall|j: int| 0 <= j < cs.len() ==> (#[trigger] cs[j]).type_bytes != t,
    decreases cs.len(),
{
    if cs.len() > 0 {
        lemma_first_match_complete(cs.drop_first(), t);
        assert forall|j: int| 0 <= j < cs.len() implies (#[trigger] cs[j]).type_bytes != t by {
            if j > 0 {
                assert(cs.drop_first()[j - 1] == cs[j]);
            }
        }
    }
}

/// The whole-file aggregate: an ordered sequence of chunks, serialized
/// behind the fixed signature.
#[derive(Debug)]
pub struct Png {
    chunks: Vec<Chunk>,
}

impl View for Png {
    type V = Seq<ChunkModel>;

    closed spec fn view(&self) -> Seq<ChunkModel> {
        self.chunks@.map_values(|c: Chunk| c@)
    }
}

impl Png {
    /// An empty container.
    pub fn new() -> (r: Png)
        ensures
            r@ == Seq::<ChunkModel>::empty(),
    {
        let r = Png { chunks: Vec::new() };
        proof {
            assert(r@ =~= Seq::<ChunkModel>::empty());
        }
        r
    }

    /// A container holding the given chunks, in order.
    pub fn from_chunks(chunks: Vec<Chunk>) -> (r: Png)
        ensures
            r@ == chunks@.map_values(|c: Chunk| c@),
    {
        Png { chunks }
    }

    /// A read-only view of the chunk sequence, insertion order preserved.
    pub fn chunks(&self) -> (r: &Vec<Chunk>)
        ensures
            r@.map_values(|c: Chunk| c@) == self@,
    {
        &self.chunks
    }

    /// Appends a chunk at the end of the sequence; types may repeat.
    pub fn append_chunk(&mut self, chunk: Chunk)
        ensures
            final(self)@ == old(self)@.push(chunk@),
    {
        self.chunks.push(chunk);
        proof {
            assert(self@ =~= old(self)@.push(chunk@));
        }
    }

    /// The position of the first chunk whose type equals the target.
    fn find_index(&self, target: &ChunkType) -> (r: Option<usize>)
        ensures
            match r {
                Some(i) => i < self@.len() && spec_first_match(self@, target@) == Some(i as int),
                None => spec_first_match(self@, target@) is None,
            },
    {
        let mut i: usize = 0;
        while i < self.chunks.len()
            invariant
                0 <= i <= self@.len(),
                self@.len() == self.chunks@.len(),
                forall|j: int| 0 <= j < i ==> (#[trigger] self@[j]).type_bytes != target@,
            decreases self@.len() - i,
        {
            if self.chunks[i].chunk_type().same_type(target) {
                proof {
                    lemma_first_match_at(self@, target@, i as int);
                }
                return Some(i);
            }
            i += 1;
        }
        proof {
            lemma_first_match_none(self@, target@);
        }
        None
    }

    /// The first chunk (in stored order) whose type equals the target, or
    /// `None` when no chunk has that type.
    pub fn chunk_by_type(&self, target: &ChunkType) -> (r: Option<&Chunk>)
        ensures
            match r {
                Some(c) => spec_first_match(self@, target@) matches Some(i) && c@ == self@[i],
                None => spec_first_match(self@, target@) is None,
            },
    {
        match self.find_index(target) {
            Some(i) => Some(&self.chunks[i]),
            None => None,
        }
    }

    /// Removes and returns the first chunk whose type equals the target;
    /// reports failure when no chunk has that type, leaving the container
    /// unchanged.
    pub fn remove_chunk(&mut self, target: &ChunkType) -> (r: Result<Chunk, ChunkNotFoundError>)
        ensures
            match r {
                Ok(c) => spec_first_match(old(self)@, target@) matches Some(i) && c@ == old(
                    self,
                )@[i] && final(self)@ == old(self)@.remove(i),
                Err(_) => spec_first_match(old(self)@, target@) is None && final(self)@ == old(
                    self,
                )@,
            },
    {
        match self.find_index(target) {
            Some(i) => {
                let c = self.chunks.remove(i);
                proof {
                    assert(self@ =~= old(self)@.remove(i as int));
                }
                Ok(c)
            },
            None => Err(ChunkNotFoundError),
        }
    }

    /// Serializes the container: the signature, then each chunk's bytes in
    /// stored order.
    pub fn as_bytes(&self) -> (r: Vec<u8>)
        ensures
            r@ == spec_png_bytes(self@),
    {
        let mut out: Vec<u8> = Vec::new();
        let sig = signature();
        out.push(sig[0]);
        out.push(sig[1]);
        out.push(sig[2]);
        out.push(sig[3]);
        out.push(sig[4]);
        out.push(sig[5]);
        out.push(sig[6]);
        out.push(sig[7]);
        proof {
            assert(self@.subrange(0, 0) =~= Seq::<ChunkModel>::empty());
            assert(out@ =~= spec_signature() + spec_chunks_bytes(self@.subrange(0, 0)));
        }
        let mut i: usize = 0;
        while i < self.chunks.len()
            invariant
                0 <= i <= self@.len(),
                self@.len() == self.chunks@.len(),
                out@ == spec_signature() + spec_chunks_bytes(self@.subrange(0, i as int)),
            decreases self@.len() - i,
        {
            let mut cb = self.chunks[i].as_bytes();
            proof {
                lemma_chunks_bytes_push(self@.subrange(0, i as int), self@[i as int]);
                assert(self@.subrange(0, i + 1) =~= self@.subrange(0, i as int).push(
                    self@[i as int],
                ));
            }
            out.append(&mut cb);
            i += 1;
        }
        proof {
            assert(self@.subrange(0, self@.len() as int) =~= self@);
        }
        out
    }

    /// Parses a byte stream as a container: the signature first, then the
    /// chunks in sequence, exactly as `spec_parse_png` says.
    pub fn parse(bytes: &[u8]) -> (r: Result<Png, PngParseError>)
        ensures
            match r {
                Ok(p) => spec_parse_png(bytes@) == Ok::<Seq<ChunkModel>, PngParseError>(p@),
                Err(e) => spec_parse_png(bytes@) == Err::<Seq<ChunkModel>, PngParseError>(e),
            },
    {
        let n = bytes.len();
        if n < 8 {
            return Err(PngParseError::InvalidSignature);
        }
        let sig = signature();
        let mut k: usize = 0;
        while k < 8
            invariant
                0 <= k <= 8,
                8 <= n == bytes@.len(),
                sig@ == spec_signature(),
                forall|j: int| 0 <= j < k ==> bytes@[j] == spec_signature()[j],
            decreases 8 - k,
        {
            if bytes[k] != sig[k] {
                proof {
                    assert(bytes@.subrange(0, 8)[k as int] != spec_signature()[k as int]);
                }
                return Err(PngParseError::InvalidSignature);
            }
            k += 1;
        }
        proof {
            assert(bytes@.subrange(0, 8) =~= spec_signature());
        }
        let mut chunks: Vec<Chunk> = Vec::new();
        let mut i: usize = 8;
        proof {
            lemma_graft_base(bytes@.subrange(8, n as int));
        }
        while i < n
            invariant
                8 <= i <= n == bytes@.len(),
                bytes@.subrange(0, 8) == spec_signature(),
                spec_parse_chunks(bytes@.subrange(8, n as int)) == spec_graft(
                    chunks@.map_values(|c: Chunk| c@),
                    spec_parse_chunks(bytes@.subrange(i as int, n as int)),
                ),
            decreases n - i,
        {
            let ghost s_i = bytes@.subrange(i as int, n as int);
            let rem = n - i;
            if rem < 12 {
                return Err(PngParseError::InvalidChunk(ChunkParseError::Incomplete));
            }
            let declared = u32_from_be(bytes[i], bytes[i + 1], bytes[i + 2], bytes[i + 3]);
            proof {
                assert(s_i.subrange(0, 4) =~= seq![
                    bytes@[i as int],
                    bytes@[i as int + 1],
                    bytes@[i as int + 2],
                    bytes@[i as int + 3],
                ]);
            }
            if (rem as u64) < 12 + (declared as u64) {
                return Err(PngParseError::InvalidChunk(ChunkParseError::Incomplete));
            }
            let end = i + 12 + (declared as usize);
            let ghost size = 12 + spec_u32_from_be(s_i.subrange(0, 4));
            proof {
                assert(s_i.subrange(size as int, s_i.len() as int) =~= bytes@.subrange(
                    end as int,
                    n as int,
                ));
                assert(s_i.subrange(0, size as int) =~= bytes@.subrange(i as int, end as int));
            }
            match Chunk::parse(&bytes[i..end]) {
                Ok(c) => {
                    proof {
                        lemma_graft_step(
                            chunks@.map_values(|ch: Chunk| ch@),
                            c@,
                            spec_parse_chunks(bytes@.subrange(end as int, n as int)),
                        );
                        assert(chunks@.push(c).map_values(|ch: Chunk| ch@) =~= chunks@.map_values(
                            |ch: Chunk| ch@,
                        ).push(c@));
                    }
                    chunks.push(c);
                },
                Err(e) => {
                    return Err(PngParseError::InvalidChunk(e));
                },
            }
            i = end;
        }
        proof {
            assert(bytes@.subrange(n as int, n as int) =~= Seq::<u8>::empty());
            let acc = chunks@.map_values(|c: Chunk| c@);
            assert(acc + Seq::<ChunkModel>::empty() =~= acc);
        }
        Ok(Png { chunks })
    }
}

/// Prefixes an already-parsed chunk sequence onto the outcome of parsing
/// the rest of a stream.
pub open spec fn spec_graft(
    acc: Seq<ChunkModel>,
    rest: Result<Seq<ChunkModel>, ChunkParseError>,
) -> Result<Seq<ChunkModel>, ChunkParseError> {
    match rest {
        Ok(cs) => Ok(acc + cs),
        Err(e) => Err(e),
    }
}

/// Grafting an empty prefix changes nothing.
proof fn lemma_graft_base(b: Seq<u8>)
    ensures
        spec_parse_chunks(b) == spec_graft(Seq::<ChunkModel>::empty(), spec_parse_chunks(b)),
{
    if spec_parse_chunks(b) is Ok {
        let cs = spec_parse_chunks(b)->Ok_0;
        assert(Seq::<ChunkModel>::empty() + cs =~= cs);
    }
}

/// Moving one parsed chunk from the stream into the prefix keeps the graft.
proof fn lemma_graft_step(
    acc: Seq<ChunkModel>,
    m: ChunkModel,
    rest: Result<Seq<ChunkModel>, ChunkParseError>,
)
    ensures
        spec_graft(acc, spec_graft(seq![m], rest)) == spec_graft(acc.push(m), rest),
{
    if rest is Ok {
        let cs = rest->Ok_0;
        assert(acc + (seq![m] + cs) =~= acc.push(m) + cs);
    }
}

/// Serializing one more chunk appends that chunk's bytes.
pub proof fn lemma_chunks_bytes_push(cs: Seq<ChunkModel>, m: ChunkModel)
    ensures
        spec_chunks_bytes(cs.push(m)) == spec_chunks_bytes(cs) + m.bytes(),
    decreases cs.len(),
{
    if cs.len() == 0 {
        assert(cs.push(m).drop_first() =~= Seq::<ChunkModel>::empty());
        assert(m.bytes() + spec_chunks_bytes(Seq::<ChunkModel>::empty()) =~= m.bytes());
        assert(spec_chunks_bytes(cs) + m.bytes() =~= m.bytes());
    } else {
        assert(cs.push(m).drop_first() =~= cs.drop_first().push(m));
        lemma_chunks_bytes_push(cs.drop_first(), m);
        assert(cs[0].bytes() + (spec_chunks_bytes(cs.drop_first()) + m.bytes()) =~= (cs[0].bytes()
            + spec_chunks_bytes(cs.drop_first())) + m.bytes());
    }
}

/// Round trip: parsing the serialized bytes of a sequence of well-formed
/// chunks yields the same sequence.
/// Parsing a stream that starts with a well-formed chunk's bytes parses
/// that chunk and goes on with the rest of the stream.
#[verifier::spinoff_prover]
#[verifier::rlimit(100)]
pub proof fn lemma_parse_chunks_step(m: ChunkModel, rest: Seq<u8>)
    requires
        m.wf(),
    ensures
        spec_parse_chunks(m.bytes() + rest) == spec_graft(seq![m], spec_parse_chunks(rest)),
{
    reveal(ChunkModel::bytes);
    let b = m.bytes() + rest;
    let cb = m.bytes();
    assert(cb.len() == 12 + m.data.len());
    assert(b.len() == cb.len() + rest.len());
    lemma_u32_be_round_trip(m.data.len() as u32);
    assert(b.subrange(0, 4) =~= cb.subrange(0, 4));
    assert(cb.subrange(0, 4) =~= crate::encoding::spec_u32_to_be(m.data.len() as u32));
    let size = 12 + spec_u32_from_be(b.subrange(0, 4));
    assert(size == cb.len());
    assert(b.len() >= size);
    assert(b.subrange(0, size as int) =~= cb);
    lemma_chunk_round_trip(m);
    assert(b.subrange(size as int, b.len() as int) =~= rest);
    if spec_parse_chunks(rest) is Ok {
        let cs = spec_parse_chunks(rest)->Ok_0;
        assert(spec_parse_chunks(b) == Ok::<Seq<ChunkModel>, ChunkParseError>(seq![m] + cs));
    }
}

/// Round trip: parsing the serialized bytes of a sequence of well-formed
/// chunks yields the same sequence.
#[verifier::spinoff_prover]
#[verifier::rlimit(100)]
pub proof fn lemma_parse_chunks_round_trip(cs: Seq<ChunkModel>)
    requires
        forall|i: int| 0 <= i < cs.len() ==> (#[trigger] cs[i]).wf(),
    ensures
        spec_parse_chunks(spec_chunks_bytes(cs)) == Ok::<Seq<ChunkModel>, ChunkParseError>(cs),
    decreases cs.len(),
{
    let b = spec_chunks_bytes(cs);
    if cs.len() == 0 {
        assert(b.len() == 0);
        assert(Seq::<ChunkModel>::empty() =~= cs);
    } else {
        let m = cs[0];
        lemma_parse_chunks_step(m, spec_chunks_bytes(cs.drop_first()));
        assert forall|i: int| 0 <= i < cs.drop_first().len() implies (#[trigger] cs.drop_first()[i]).wf() by {
            assert(cs.drop_first()[i] == cs[i + 1]);
        }
        lemma_parse_chunks_round_trip(cs.drop_first());
        assert(seq![m] + cs.drop_first() =~= cs);
    }
}

/// Round trip: parsing the serialized bytes of a container of well-formed
/// chunks yields an equal chunk sequence.
pub proof fn lemma_png_round_trip(cs: Seq<ChunkModel>)
    requires
        forall|i: int| 0 <= i < cs.len() ==> (#[trigger] cs[i]).wf(),
    ensures
        spec_parse_png(spec_png_bytes(cs)) == Ok::<Seq<ChunkModel>, PngParseError>(cs),
{
    let b = spec_png_bytes(cs);
    assert(b.subrange(0, 8) =~= spec_signature());
    assert(b.subrange(8, b.len() as int) =~= spec_chunks_bytes(cs));
    lemma_parse_chunks_round_trip(cs);
}

/// Serialization inverts a successful parse of a chunk sequence exactly:
/// the parsed chunks are well formed and their serialized bytes are the
/// input stream.
#[verifier::spinoff_prover]
#[verifier::rlimit(100)]
pub proof fn lemma_parse_chunks_inverse(b: Seq<u8>)
    requires
        spec_parse_chunks(b) is Ok,
    ensures
        spec_parse_chunks(b) matches Ok(cs) ==> spec_chunks_bytes(cs) == b && forall|i: int|
            0 <= i < cs.len() ==> (#[trigger] cs[i]).wf(),
    decreases b.len(),
{
    if b.len() == 0 {
    } else {
        let size = 12 + spec_u32_from_be(b.subrange(0, 4));
        let front = b.subrange(0, size as int);
        let back = b.subrange(size as int, b.len() as int);
        let m = spec_parse_chunk(front)->Ok_0;
        let cs_rest = spec_parse_chunks(back)->Ok_0;
        let cs = seq![m] + cs_rest;
        crate::chunk::lemma_chunk_parse_inverse(front);
        lemma_parse_chunks_inverse(back);
        assert(cs[0] == m);
        assert(cs.drop_first() =~= cs_rest);
        assert(spec_chunks_bytes(cs) == m.bytes() + spec_chunks_bytes(cs_rest));
        assert(front + back =~= b);
        assert forall|i: int| 0 <= i < cs.len() implies (#[trigger] cs[i]).wf() by {
            if i > 0 {
                assert(cs[i] == cs_rest[i - 1]);
            }
        }
    }
}

/// Serialization inverts a successful container parse exactly: the parsed
/// chunks are well formed and their serialized container is the input, so
/// the serialized bytes reparse to the same chunk sequence.
pub proof fn lemma_parse_png_inverse(b: Seq<u8>)
    requires
        spec_parse_png(b) is Ok,
    ensures
        spec_parse_png(b) matches Ok(cs) ==> spec_png_bytes(cs) == b && forall|i: int|
            0 <= i < cs.len() ==> (#[trigger] cs[i]).wf(),
{
    lemma_parse_chunks_inverse(b.subrange(8, b.len() as int));
    assert(spec_signature() + b.subrange(8, b.len() as int) =~= b);
}

/// Appending a chunk whose type is not yet present and then removing by
/// that type finds exactly the appended chunk and restores the original
/// sequence.
pub proof fn lemma_append_remove(cs: Seq<ChunkModel>, m: ChunkModel)
    requires
        spec_first_match(cs, m.type_bytes) is None,
    ensures
        spec_first_match(cs.push(m), m.type_bytes) == Some(cs.len() as int),
        cs.push(m).remove(cs.len() as int) =~= cs,
{
    lemma_first_match_complete(cs, m.type_bytes);
    assert forall|j: int| 0 <= j < cs.len() implies (#[trigger] cs.push(m)[j]).type_bytes
        != m.type_bytes by {
        assert(cs.push(m)[j] == cs[j]);
    }
    lemma_first_match_at(cs.push(m), m.type_bytes, cs.len() as int);
}

} // verus!
