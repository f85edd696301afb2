//! The reader: a state machine that walks a byte source and produces a
//! container by parsing chunks one after another until the terminator tag
//! (`"IEND"`) is seen. The terminator chunk is kept; bytes after it are
//! never read.

use vstd::prelude::*;

use crate::chunk::{chunk_model_wf, spec_chunk_bytes, tag_is_text, ChunkModel, PngChunk};
use crate::codec::{be_u32, spec_iend_tag, spec_signature, PngError};
use crate::container::{spec_chunks_bytes, spec_chunks_bytes_inject, FileModel, PngFile};
use vstd::utf8::valid_utf8;

verus! {

broadcast use vstd::array::group_array_axioms;

/// The chunk sequence a byte stream holds, read from its front.
///
/// Each step takes a 4-byte length field, a 4-byte type tag, `length`
/// payload bytes and a 4-byte checksum field; a stream that runs out in the
/// middle of a chunk is `Truncated`, a chunk whose type tag is not valid
/// UTF-8 text is refused as `Decode` when the tag is inspected against the
/// terminator, and a chunk whose tag is the terminator ends the walk with
/// itself as the last chunk. Bytes after the terminator chunk are ignored.
pub open spec fn spec_parse_chunks(bytes: Seq<u8>) -> Result<Seq<ChunkModel>, PngError>
    decreases bytes.len(),
{
    if bytes.len() < 12 {
        Err(PngError::Truncated)
    } else {
        let n: int = be_u32(bytes.subrange(0, 4)) as int;
        if bytes.len() < 12 + n {
            Err(PngError::Truncated)
        } else {
            let c = ChunkModel {
                length: bytes.subrange(0, 4),
                type_tag: bytes.subrange(4, 8),
                data: bytes.subrange(8, 8 + n),
                crc: bytes.subrange(8 + n, 12 + n),
            };
            if !valid_utf8(c.type_tag) {
                Err(PngError::Decode)
            } else if c.type_tag == spec_iend_tag() {
                Ok(seq![c])
            } else {
                match spec_parse_chunks(bytes.skip(12 + n)) {
                    Ok(cs) => Ok(seq![c] + cs),
                    Err(e) => Err(e),
                }
            }
        }
    }
}

/// The container a byte source holds: its first 8 bytes as the signature,
/// then the chunk sequence of the rest.
pub open spec fn spec_read(bytes: Seq<u8>) -> Result<FileModel, PngError> {
    if bytes.len() < 8 {
        Err(PngError::Truncated)
    } else {
        match spec_parse_chunks(bytes.skip(8)) {
            Ok(cs) => Ok(FileModel { signature: bytes.subrange(0, 8), chunks: cs }),
            Err(e) => Err(e),
        }
    }
}

/// Prefixing a chunk sequence onto a parse outcome: errors pass through.
pub open spec fn spec_prepend(
    cs: Seq<ChunkModel>,
    r: Result<Seq<ChunkModel>, PngError>,
) -> Result<Seq<ChunkModel>, PngError> {
    match r {
        Ok(rest) => Ok(cs + rest),
        Err(e) => Err(e),
    }
}

/// Whether the first 8 bytes of a source are the canonical signature.
pub fn check_if_png(bytes: &Vec<u8>) -> (r: bool)
    ensures
        r == (bytes@.len() >= 8 && bytes@.subrange(0, 8) == spec_signature()),
{
    if bytes.len() < 8 {
        return false;
    }
    let r = bytes[0] == 137 && bytes[1] == 80 && bytes[2] == 78 && bytes[3] == 71 && bytes[4] == 13
        && bytes[5] == 10 && bytes[6] == 26 && bytes[7] == 10;
    proof {
        if r {
            assert(bytes@.subrange(0, 8) =~= spec_signature());
        } else {
            assert(bytes@.subrange(0, 8) != spec_signature()) by {
                if bytes@.subrange(0, 8) == spec_signature() {
                    assert(bytes@.subrange(0, 8)[0] == 137);
                    assert(bytes@.subrange(0, 8)[1] == 80);
                    assert(bytes@.subrange(0, 8)[2] == 78);
                    assert(bytes@.subrange(0, 8)[3] == 71);
                    assert(bytes@.subrange(0, 8)[4] == 13);
                    assert(bytes@.subrange(0, 8)[5] == 10);
                    assert(bytes@.subrange(0, 8)[6] == 26);
                    assert(bytes@.subrange(0, 8)[7] == 10);
                }
            }
        }
    }
    r
}

/// Parses one chunk of `bytes` starting at `offset`.
///
/// Returns the chunk and the offset just past it; `PngError::Truncated`
/// exactly when fewer bytes remain than the chunk's fields and declared
/// payload need. The type tag is not inspected here.
pub fn read_chunk(bytes: &Vec<u8>, offset: usize) -> (r: Result<(PngChunk, usize), PngError>)
    requires
        offset <= bytes@.len(),
    ensures
        ({
            let tail = bytes@.skip(offset as int);
            &&& (r is Ok <==> (tail.len() >= 12 && tail.len() >= 12 + be_u32(
                tail.subrange(0, 4),
            )))
            &&& (r matches Ok((c, next)) ==> {
                let n: int = be_u32(tail.subrange(0, 4)) as int;
                &&& c@ == (ChunkModel {
                    length: tail.subrange(0, 4),
                    type_tag: tail.subrange(4, 8),
                    data: tail.subrange(8, 8 + n),
                    crc: tail.subrange(8 + n, 12 + n),
                })
                &&& c.wf()
                &&& next == offset + 12 + n
                &&& next <= bytes@.len()
            })
            &&& (r is Err ==> r == Err::<(PngChunk, usize), PngError>(PngError::Truncated))
        }),
{
    let ghost tail = bytes@.skip(offset as int);
    let total: usize = bytes.len();
    let avail: usize = total - offset;
    if avail < 12 {
        return Err(PngError::Truncated);
    }
    let length_field: [u8; 4] = [bytes[offset], bytes[offset + 1], bytes[offset + 2], bytes[offset
        + 3]];
    let type_field: [u8; 4] = [bytes[offset + 4], bytes[offset + 5], bytes[offset + 6], bytes[offset
        + 7]];
    proof {
        assert(length_field@ =~= tail.subrange(0, 4));
        assert(type_field@ =~= tail.subrange(4, 8));
    }
    let n32: u32 = crate::codec::decode_be_u32(&length_field);
    let n: usize = n32 as usize;
    if avail - 12 < n {
        return Err(PngError::Truncated);
    }
    let data_start: usize = offset + 8;
    let mut data: Vec<u8> = Vec::new();
    proof {
        assert(data@ =~= bytes@.subrange(data_start as int, data_start as int));
    }
    let mut i: usize = 0;
    while i < n
        invariant
            i <= n,
            total == bytes@.len(),
            data_start == offset + 8,
            data_start + n + 4 <= total,
            data@ == bytes@.subrange(data_start as int, data_start + i),
        decreases n - i,
    {
        data.push(bytes[data_start + i]);
        i = i + 1;
        proof {
            assert(data@ =~= bytes@.subrange(data_start as int, data_start + i));
        }
    }
    let crc_start: usize = data_start + n;
    let crc_field: [u8; 4] = [bytes[crc_start], bytes[crc_start + 1], bytes[crc_start + 2], bytes[
        crc_start + 3]];
    proof {
        assert(data@ =~= tail.subrange(8, 8 + n));
        assert(crc_field@ =~= tail.subrange(8 + n, 12 + n));
    }
    let c = PngChunk {
        chunk_length: length_field,
        chunk_type: type_field,
        chunk_data: data,
        chunk_crc: crc_field,
    };
    Ok((c, crc_start + 4))
}

/// Reads a whole container from a byte source: the first 8 bytes become the
/// signature, then chunks are parsed one after another; a chunk with the
/// terminator tag is appended and ends the walk.
///
/// The result is exactly what [`spec_read`] says the source holds: the
/// parsed container on a well-formed source, `PngError::Truncated` when the
/// source runs out before the terminator chunk is complete, and
/// `PngError::Decode` when a chunk's type tag is not valid UTF-8 text.
pub fn read_png(bytes: &Vec<u8>) -> (r: Result<PngFile, PngError>)
    ensures
        r is Ok <==> spec_read(bytes@) is Ok,
        (r matches Ok(f) ==> spec_read(bytes@) matches Ok(fm) && f@ == fm),
        (r matches Err(e) ==> spec_read(bytes@) == Err::<FileModel, PngError>(e)),
{
    if bytes.len() < 8 {
        return Err(PngError::Truncated);
    }
    let mut png = PngFile::create();
    png.file_signature = [bytes[0], bytes[1], bytes[2], bytes[3], bytes[4], bytes[5], bytes[6],
        bytes[7]];
    proof {
        assert(png@.signature =~= bytes@.subrange(0, 8));
        assert(png@.chunks =~= Seq::<ChunkModel>::empty());
    }
    let mut offset: usize = 8;
    loop
        invariant
            8 <= offset <= bytes@.len(),
            png@.signature == bytes@.subrange(0, 8),
            png@.chunks.len() == png.file_content@.len(),
            spec_parse_chunks(bytes@.skip(8)) == spec_prepend(
                png@.chunks,
                spec_parse_chunks(bytes@.skip(offset as int)),
            ),
        decreases bytes@.len() - offset,
    {
        let ghost tail = bytes@.skip(offset as int);
        let step = read_chunk(bytes, offset);
        match step {
            Err(e) => {
                return Err(e);
            },
            Ok((c, next)) => {
                let ghost n: int = be_u32(tail.subrange(0, 4)) as int;
                proof {
                    assert(bytes@.skip(next as int) =~= tail.skip(12 + n));
                }
                if !tag_is_text(&c.chunk_type) {
                    proof {
                        assert(spec_parse_chunks(tail) == Err::<Seq<ChunkModel>, PngError>(
                            PngError::Decode,
                        ));
                    }
                    return Err(PngError::Decode);
                }
                let is_end: bool = c.chunk_type[0] == 73 && c.chunk_type[1] == 69 && c.chunk_type[2]
                    == 78 && c.chunk_type[3] == 68;
                proof {
                    if is_end {
                        assert(c@.type_tag =~= spec_iend_tag());
                    } else {
                        assert(c@.type_tag != spec_iend_tag()) by {
                            if c@.type_tag == spec_iend_tag() {
                                assert(c@.type_tag[0] == 73);
                                assert(c@.type_tag[1] == 69);
                                assert(c@.type_tag[2] == 78);
                                assert(c@.type_tag[3] == 68);
                            }
                        }
                    }
                }
                let ghost chunks_before = png@.chunks;
                let idx: usize = png.file_content.len();
                png.insert_chunk(c, idx);
                proof {
                    assert(png@.chunks =~= chunks_before.push(c@));
                }
                if is_end {
                    proof {
                        assert(spec_parse_chunks(tail) == Ok::<Seq<ChunkModel>, PngError>(
                            seq![c@],
                        ));
                        assert(png@.chunks =~= chunks_before + seq![c@]);
                        assert(spec_parse_chunks(bytes@.skip(8)) == Ok::<
                            Seq<ChunkModel>,
                            PngError,
                        >(png@.chunks));
                        assert(spec_read(bytes@) matches Ok(fm) && png@ == fm) by {
                            assert(png@ =~= FileModel {
                                signature: bytes@.subrange(0, 8),
                                chunks: png@.chunks,
                            });
                        }
                    }
                    return Ok(png);
                }
                proof {
                    assert(spec_parse_chunks(tail) == spec_prepend(
                        seq![c@],
                        spec_parse_chunks(tail.skip(12 + n)),
                    ));
                    assert(forall|rest: Seq<ChunkModel>|
                        chunks_before + (seq![c@] + rest) =~= #[trigger] (png@.chunks + rest));
                }
                offset = next;
            },
        }
    }
}

/// What holds of every successfully parsed chunk sequence:
///
/// - every chunk is well-formed, so its length field holds its payload's
///   byte count and each fixed field is 4 bytes wide;
/// - every chunk's type tag is valid UTF-8 text;
/// - the sequence holds at least one chunk, the last one carries the
///   terminator tag, and no chunk before the last does;
/// - serializing the chunks back reproduces exactly the prefix of the
///   source they were parsed from.
pub proof fn lemma_parse_chunks_props(bytes: Seq<u8>)
    ensures
        spec_parse_chunks(bytes) matches Ok(cs) ==> {
            &&& cs.len() >= 1
            &&& forall|i: int| 0 <= i < cs.len() ==> chunk_model_wf(#[trigger] cs[i])
            &&& forall|i: int| 0 <= i < cs.len() ==> valid_utf8(#[trigger] cs[i].type_tag)
            &&& cs.last().type_tag == spec_iend_tag()
            &&& forall|i: int|
                0 <= i < cs.len() - 1 ==> (#[trigger] cs[i].type_tag) != spec_iend_tag()
            &&& spec_chunks_bytes(cs).len() <= bytes.len()
            &&& spec_chunks_bytes(cs) == bytes.take(spec_chunks_bytes(cs).len() as int)
        },
    decreases bytes.len(),
{
    if spec_parse_chunks(bytes) is Ok {
        let n: int = be_u32(bytes.subrange(0, 4)) as int;
        let c = ChunkModel {
            length: bytes.subrange(0, 4),
            type_tag: bytes.subrange(4, 8),
            data: bytes.subrange(8, 8 + n),
            crc: bytes.subrange(8 + n, 12 + n),
        };
        assert(chunk_model_wf(c));
        assert(spec_chunk_bytes(c) =~= bytes.take(12 + n));
        if c.type_tag == spec_iend_tag() {
            let cs = seq![c];
            assert(cs.drop_first() =~= Seq::<ChunkModel>::empty());
            assert(cs[0] == c);
            assert(spec_chunks_bytes(Seq::<ChunkModel>::empty()) == Seq::<u8>::empty());
            assert(spec_chunks_bytes(cs) == spec_chunk_bytes(cs[0]) + spec_chunks_bytes(
                cs.drop_first(),
            ));
            assert(spec_chunks_bytes(cs) =~= spec_chunk_bytes(c));
            assert(spec_chunks_bytes(cs) == bytes.take(spec_chunks_bytes(cs).len() as int));
        } else {
            lemma_parse_chunks_props(bytes.skip(12 + n));
            let rest = spec_parse_chunks(bytes.skip(12 + n));
            let tail_cs = rest->Ok_0;
            let cs = seq![c] + tail_cs;
            assert(spec_parse_chunks(bytes) == Ok::<Seq<ChunkModel>, PngError>(cs));
            assert(cs[0] == c);
            assert(cs.drop_first() =~= tail_cs);
            assert(forall|i: int| 1 <= i < cs.len() ==> #[trigger] cs[i] == tail_cs[i - 1]);
            assert(cs.last() == tail_cs.last());
            let lt: int = spec_chunks_bytes(tail_cs).len() as int;
            assert(spec_chunks_bytes(tail_cs) == bytes.skip(12 + n).take(lt));
            assert(spec_chunks_bytes(cs) == spec_chunk_bytes(c) + spec_chunks_bytes(tail_cs));
            assert(spec_chunks_bytes(cs) =~= bytes.take(12 + n + lt));
        }
    }
}

/// Round trip: serializing a successfully parsed container with a marker
/// that matches none of its chunks reproduces, byte for byte, the signature
/// and the chunk region it was parsed from, and the injected chunk is
/// entirely absent from the output. (Bytes after the terminator chunk were
/// never part of the container and do not reappear.)
pub proof fn lemma_round_trip(bytes: Seq<u8>, inj: ChunkModel, marker: Seq<u8>)
    requires
        spec_read(bytes) is Ok,
        forall|i: int|
            0 <= i < spec_read(bytes)->Ok_0.chunks.len() ==> (#[trigger] spec_read(
                bytes,
            )->Ok_0.chunks[i].type_tag) != marker,
    ensures
        ({
            let fm = spec_read(bytes)->Ok_0;
            let out = fm.signature + spec_chunks_bytes_inject(fm.chunks, inj, marker);
            &&& out.len() <= bytes.len()
            &&& out == bytes.take(out.len() as int)
        }),
{
    let fm = spec_read(bytes)->Ok_0;
    let cs = fm.chunks;
    crate::container::lemma_inject_no_match(cs, inj, marker);
    lemma_parse_chunks_props(bytes.skip(8));
    assert(spec_chunks_bytes(cs) == bytes.skip(8).take(spec_chunks_bytes(cs).len() as int));
    let out = fm.signature + spec_chunks_bytes_inject(cs, inj, marker);
    assert(out =~= bytes.take(out.len() as int));
}

} // verus!
