//! The container: a fixed 8-byte signature plus an ordered sequence of
//! chunks, with lookup, insertion, and serialization that can splice one
//! extra chunk in after a matching type tag.

use vstd::prelude::*;

use crate::chunk::{spec_chunk_bytes, tag_is_text, ChunkModel, PngChunk};
use crate::codec::{spec_signature, PngError};
use vstd::string::StringSliceAdditionalSpecFns;
use vstd::string::StrSliceExecFns;
use vstd::utf8::valid_utf8;

verus! {

broadcast use vstd::array::group_array_axioms;

/// The mathematical value of a container: its signature bytes and the
/// models of its chunks, in wire order.
#[verifier::ext_equal]
pub ghost struct FileModel {
    pub signature: Seq<u8>,
    pub chunks: Seq<ChunkModel>,
}

/// The models of a sequence of chunks, in order.
pub open spec fn chunk_views(s: Seq<PngChunk>) -> Seq<ChunkModel> {
    s.map_values(|c: PngChunk| c@)
}

/// The bytes of a chunk sequence on the wire, one chunk after the other.
pub open spec fn spec_chunks_bytes(cs: Seq<ChunkModel>) -> Seq<u8>
    decreases cs.len(),
{
    if cs.len() == 0 {
        Seq::empty()
    } else {
        spec_chunk_bytes(cs[0]) + spec_chunks_bytes(cs.drop_first())
    }
}

/// The bytes of a chunk sequence on the wire with one injected chunk: after
/// each chunk whose type tag equals `marker`, the injected chunk's bytes
/// follow immediately. A marker that matches no chunk leaves the output
/// without the injected chunk.
pub open spec fn spec_chunks_bytes_inject(
    cs: Seq<ChunkModel>,
    inj: ChunkModel,
    marker: Seq<u8>,
) -> Seq<u8>
    decreases cs.len(),
{
    if cs.len() == 0 {
        Seq::empty()
    } else {
        spec_chunk_bytes(cs[0]) + (if cs[0].type_tag == marker {
            spec_chunk_bytes(inj)
        } else {
            Seq::empty()
        }) + spec_chunks_bytes_inject(cs.drop_first(), inj, marker)
    }
}

/// Serializing-with-injection one more chunk at the end appends that chunk's
/// bytes, then the injected chunk's bytes exactly when the tag matches.
pub proof fn lemma_chunks_bytes_inject_push(
    cs: Seq<ChunkModel>,
    c: ChunkModel,
    inj: ChunkModel,
    marker: Seq<u8>,
)
    ensures
        spec_chunks_bytes_inject(cs.push(c), inj, marker) == spec_chunks_bytes_inject(
            cs,
            inj,
            marker,
        ) + spec_chunk_bytes(c) + (if c.type_tag == marker {
            spec_chunk_bytes(inj)
        } else {
            Seq::empty()
        }),
    decreases cs.len(),
{
    let tail = (if c.type_tag == marker {
        spec_chunk_bytes(inj)
    } else {
        Seq::empty()
    });
    let s = cs.push(c);
    assert(spec_chunks_bytes_inject(s, inj, marker) == spec_chunk_bytes(s[0]) + (if s[0].type_tag
        == marker {
        spec_chunk_bytes(inj)
    } else {
        Seq::<u8>::empty()
    }) + spec_chunks_bytes_inject(s.drop_first(), inj, marker));
    if cs.len() == 0 {
        assert(s[0] == c);
        assert(s.drop_first() =~= Seq::<ChunkModel>::empty());
        assert(spec_chunks_bytes_inject(s, inj, marker) =~= spec_chunks_bytes_inject(
            cs,
            inj,
            marker,
        ) + spec_chunk_bytes(c) + tail);
    } else {
        assert(s[0] == cs[0]);
        assert(s.drop_first() =~= cs.drop_first().push(c));
        lemma_chunks_bytes_inject_push(cs.drop_first(), c, inj, marker);
        assert(spec_chunks_bytes_inject(s, inj, marker) =~= spec_chunks_bytes_inject(
            cs,
            inj,
            marker,
        ) + spec_chunk_bytes(c) + tail);
    }
}

/// A marker that matches no chunk's type tag leaves the serialized bytes
/// exactly those of the plain chunk sequence: the injected chunk is absent.
pub proof fn lemma_inject_no_match(cs: Seq<ChunkModel>, inj: ChunkModel, marker: Seq<u8>)
    requires
        forall|i: int| 0 <= i < cs.len() ==> cs[i].type_tag != marker,
    ensures
        spec_chunks_bytes_inject(cs, inj, marker) == spec_chunks_bytes(cs),
    decreases cs.len(),
{
    if cs.len() == 0 {
    } else {
        lemma_inject_no_match(cs.drop_first(), inj, marker);
        assert(spec_chunks_bytes_inject(cs, inj, marker) =~= spec_chunks_bytes(cs));
    }
}

/// Injection placement: serializing chunks `[a, b, c]` where only `b`'s type
/// tag equals the marker puts the injected chunk `d` immediately after `b`,
/// so the wire order is `a, b, d, c`.
pub proof fn lemma_injection_placement(
    a: ChunkModel,
    b: ChunkModel,
    c: ChunkModel,
    d: ChunkModel,
    marker: Seq<u8>,
)
    requires
        a.type_tag != marker,
        b.type_tag == marker,
        c.type_tag != marker,
    ensures
        spec_chunks_bytes_inject(seq![a, b, c], d, marker) == spec_chunk_bytes(a)
            + spec_chunk_bytes(b) + spec_chunk_bytes(d) + spec_chunk_bytes(c),
{
    let e = Seq::<ChunkModel>::empty();
    lemma_chunks_bytes_inject_push(e, a, d, marker);
    lemma_chunks_bytes_inject_push(e.push(a), b, d, marker);
    lemma_chunks_bytes_inject_push(e.push(a).push(b), c, d, marker);
    assert(e.push(a).push(b).push(c) =~= seq![a, b, c]);
    assert(spec_chunks_bytes_inject(seq![a, b, c], d, marker) =~= spec_chunk_bytes(a)
        + spec_chunk_bytes(b) + spec_chunk_bytes(d) + spec_chunk_bytes(c));
}

/// The container: a signature and the owned, ordered chunks.
#[derive(Debug, PartialEq, Eq)]
pub struct PngFile {
    /// The 8 bytes that precede the first chunk.
    pub file_signature: [u8; 8],
    /// The chunks, in wire order.
    pub file_content: Vec<PngChunk>,
}

impl View for PngFile {
    type V = FileModel;

    open spec fn view(&self) -> FileModel {
        FileModel { signature: self.file_signature@, chunks: chunk_views(self.file_content@) }
    }
}

/// Appends the four raw wire fields of `c` to `out`.
fn append_chunk_bytes(out: &mut Vec<u8>, c: &PngChunk)
    ensures
        final(out)@ == old(out)@ + spec_chunk_bytes(c@),
{
    out.push(c.chunk_length[0]);
    out.push(c.chunk_length[1]);
    out.push(c.chunk_length[2]);
    out.push(c.chunk_length[3]);
    out.push(c.chunk_type[0]);
    out.push(c.chunk_type[1]);
    out.push(c.chunk_type[2]);
    out.push(c.chunk_type[3]);
    let ghost mid = out@;
    let mut i: usize = 0;
    while i < c.chunk_data.len()
        invariant
            i <= c.chunk_data@.len(),
            out@ == mid + c.chunk_data@.subrange(0, i as int),
        decreases c.chunk_data@.len() - i,
    {
        out.push(c.chunk_data[i]);
        i = i + 1;
        proof {
            assert(out@ =~= mid + c.chunk_data@.subrange(0, i as int));
        }
    }
    out.push(c.chunk_crc[0]);
    out.push(c.chunk_crc[1]);
    out.push(c.chunk_crc[2]);
    out.push(c.chunk_crc[3]);
    proof {
        assert(c.chunk_data@.subrange(0, c.chunk_data@.len() as int) =~= c.chunk_data@);
        assert(out@ =~= old(out)@ + spec_chunk_bytes(c@));
    }
}

impl PngFile {
    /// Returns an empty container with the canonical signature.
    pub fn create() -> (f: PngFile)
        ensures
            f@.signature == spec_signature(),
            f@.chunks.len() == 0,
    {
        let f = PngFile { file_signature: [137u8, 80u8, 78u8, 71u8, 13u8, 10u8, 26u8, 10u8], file_content: Vec::new() };
        proof {
            assert(f@.signature =~= spec_signature());
            assert(f@.chunks =~= Seq::<ChunkModel>::empty());
        }
        f
    }

    /// Returns the chunk at `index`; `index` must be in range.
    pub fn get_chunk(&self, index: usize) -> (c: &PngChunk)
        requires
            index < self@.chunks.len(),
        ensures
            c@ == self@.chunks[index as int],
    {
        &self.file_content[index]
    }

    /// Returns the final chunk; the container must hold at least one.
    pub fn get_last_chunk(&self) -> (c: &PngChunk)
        requires
            self@.chunks.len() > 0,
        ensures
            c@ == self@.chunks.last(),
    {
        &self.file_content[self.file_content.len() - 1]
    }

    /// Inserts `chunk` at `index`, shifting later chunks one place towards
    /// the end; `index` must be in `[0, len]`.
    pub fn insert_chunk(&mut self, chunk: PngChunk, index: usize)
        requires
            index <= old(self)@.chunks.len(),
        ensures
            final(self)@.signature == old(self)@.signature,
            final(self)@.chunks == old(self)@.chunks.insert(index as int, chunk@),
    {
        self.file_content.insert(index, chunk);
        proof {
            assert(self@.chunks =~= old(self)@.chunks.insert(index as int, chunk@));
        }
    }

    /// Serializes the container: the signature, then each chunk's four raw
    /// fields in order; immediately after each chunk whose type tag equals
    /// the bytes of `inj_after`, the injected chunk's four raw fields follow.
    /// The injected chunk goes through the same raw-byte path as every other
    /// chunk, whatever its payload holds.
    ///
    /// Returns `PngError::Decode` exactly when some chunk's type tag is not
    /// valid UTF-8 text, found when that tag is inspected as a match target.
    pub fn serialize(&self, inj_chunk: &PngChunk, inj_after: &str) -> (r: Result<Vec<u8>, PngError>)
        ensures
            r is Ok <==> (forall|i: int|
                0 <= i < self@.chunks.len() ==> valid_utf8(#[trigger] self@.chunks[i].type_tag)),
            r matches Ok(out) ==> out@ == self@.signature + spec_chunks_bytes_inject(
                self@.chunks,
                inj_chunk@,
                inj_after.spec_bytes(),
            ),
            r is Err ==> r == Err::<Vec<u8>, PngError>(PngError::Decode),
    {
        let marker: Vec<u8> = inj_after.as_bytes_vec();
        let mut out: Vec<u8> = Vec::new();
        let mut k: usize = 0;
        while k < 8
            invariant
                k <= 8,
                out@ == self.file_signature@.subrange(0, k as int),
            decreases 8 - k,
        {
            out.push(self.file_signature[k]);
            k = k + 1;
            proof {
                assert(out@ =~= self.file_signature@.subrange(0, k as int));
            }
        }
        proof {
            assert(out@ =~= self@.signature);
        }
        let mut i: usize = 0;
        while i < self.file_content.len()
            invariant
                i <= self.file_content@.len(),
                marker@ == inj_after.spec_bytes(),
                self@.chunks.len() == self.file_content@.len(),
                forall|j: int|
                    0 <= j < i ==> valid_utf8(#[trigger] self@.chunks[j].type_tag),
                out@ == self@.signature + spec_chunks_bytes_inject(
                    self@.chunks.take(i as int),
                    inj_chunk@,
                    marker@,
                ),
            decreases self.file_content@.len() - i,
        {
            let c = &self.file_content[i];
            proof {
                assert(self@.chunks[i as int] == self.file_content@[i as int]@);
            }
            if !tag_is_text(&c.chunk_type) {
                proof {
                    assert(!valid_utf8(self@.chunks[i as int].type_tag));
                }
                return Err(PngError::Decode);
            }
            append_chunk_bytes(&mut out, c);
            let matched: bool = marker.len() == 4 && marker[0] == c.chunk_type[0] && marker[1]
                == c.chunk_type[1] && marker[2] == c.chunk_type[2] && marker[3] == c.chunk_type[3];
            proof {
                if matched {
                    assert(marker@ =~= c@.type_tag);
                } else {
                    assert(marker@ != c@.type_tag);
                }
            }
            if matched {
                append_chunk_bytes(&mut out, inj_chunk);
            }
            proof {
                lemma_chunks_bytes_inject_push(
                    self@.chunks.take(i as int),
                    self@.chunks[i as int],
                    inj_chunk@,
                    marker@,
                );
                assert(self@.chunks.take(i as int).push(self@.chunks[i as int]) =~= self@.chunks
                    .take(i + 1));
                assert(out@ =~= self@.signature + spec_chunks_bytes_inject(
                    self@.chunks.take(i + 1),
                    inj_chunk@,
                    marker@,
                ));
            }
            i = i + 1;
        }
        proof {
            assert(self@.chunks.take(self.file_content@.len() as int) =~= self@.chunks);
        }
        Ok(out)
    }
}

} // verus!
