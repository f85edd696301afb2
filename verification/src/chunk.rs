//! One chunk of the container format: a length-prefixed, typed, checksummed
//! binary record, stored as its raw wire fields.

use vstd::prelude::*;

use crate::codec::{be_u32, le_u32, PngError};
use vstd::string::StringSliceAdditionalSpecFns;
use vstd::string::StrSliceExecFns;
use vstd::utf8::{decode_utf8, valid_utf8};

verus! {

broadcast use vstd::array::group_array_axioms;

/// The mathematical value of a chunk: the four wire fields as byte sequences.
#[verifier::ext_equal]
pub ghost struct ChunkModel {
    pub length: Seq<u8>,
    pub type_tag: Seq<u8>,
    pub data: Seq<u8>,
    pub crc: Seq<u8>,
}

/// A well-formed chunk: each fixed field is 4 bytes wide and the length field
/// holds the byte count of the payload.
pub open spec fn chunk_model_wf(c: ChunkModel) -> bool {
    &&& c.length.len() == 4
    &&& c.type_tag.len() == 4
    &&& c.crc.len() == 4
    &&& be_u32(c.length) == c.data.len()
}

/// The bytes a chunk occupies on the wire: length, type tag, payload,
/// checksum, in that order.
pub open spec fn spec_chunk_bytes(c: ChunkModel) -> Seq<u8> {
    c.length + c.type_tag + c.data + c.crc
}

/// One chunk, holding its raw wire fields.
#[derive(Debug, PartialEq, Eq)]
pub struct PngChunk {
    /// The 4-byte length field, big-endian on the wire.
    pub chunk_length: [u8; 4],
    /// The 4-byte type tag, conventionally ASCII letters.
    pub chunk_type: [u8; 4],
    /// The payload, `length` bytes of uninterpreted data.
    pub chunk_data: Vec<u8>,
    /// The 4-byte checksum field, carried through unchanged and never
    /// computed or validated here.
    pub chunk_crc: [u8; 4],
}

impl View for PngChunk {
    type V = ChunkModel;

    open spec fn view(&self) -> ChunkModel {
        ChunkModel {
            length: self.chunk_length@,
            type_tag: self.chunk_type@,
            data: self.chunk_data@,
            crc: self.chunk_crc@,
        }
    }
}

/// `core::str::Utf8Error`, the error of `core::str::from_utf8`; opaque here,
/// only told apart from success.
#[verifier::external_type_specification]
#[verifier::external_body]
pub struct ExUtf8Error(core::str::Utf8Error);

/// Relies on `core::str::from_utf8`: it returns `Ok` exactly when the bytes
/// are valid UTF-8, and the returned `&str` is backed by those same bytes.
pub assume_specification<'a>[ core::str::from_utf8 ](v: &'a [u8]) -> (r: Result<
    &'a str,
    core::str::Utf8Error,
>)
    ensures
        r is Ok <==> valid_utf8(v@),
        r matches Ok(s) ==> s.spec_bytes() == v@,
;

/// Whether a 4-byte type tag is valid UTF-8 text.
pub fn tag_is_text(tag: &[u8; 4]) -> (b: bool)
    ensures
        b == valid_utf8(tag@),
{
    core::str::from_utf8(tag.as_slice()).is_ok()
}

impl PngChunk {
    /// A well-formed chunk: the length field holds the payload's byte count.
    pub open spec fn wf(&self) -> bool {
        chunk_model_wf(self@)
    }

    /// Decodes the 4-byte type tag as text.
    ///
    /// Returns the decoded tag exactly when the tag bytes are valid UTF-8,
    /// and `PngError::Decode` otherwise.
    pub fn get_header(&self) -> (r: Result<String, PngError>)
        ensures
            r is Ok <==> valid_utf8(self@.type_tag),
            r matches Ok(s) ==> s@ == decode_utf8(self@.type_tag),
            r is Err ==> r == Err::<String, PngError>(PngError::Decode),
    {
        broadcast use vstd::utf8::encode_utf8_decode_utf8;

        match core::str::from_utf8(self.chunk_type.as_slice()) {
            Ok(s) => Ok(s.to_owned()),
            Err(_) => Err(PngError::Decode),
        }
    }

    /// Decodes the length field as a big-endian 32-bit integer.
    pub fn get_length(&self) -> (n: u32)
        ensures
            n as nat == be_u32(self@.length),
    {
        crate::codec::decode_be_u32(&self.chunk_length)
    }

    /// Decodes the checksum field as a little-endian 32-bit integer.
    ///
    /// Note the asymmetry: the length field is decoded big-endian, the
    /// checksum little-endian. The checksum is never computed or checked
    /// here, only reported, so the choice of reading convention carries no
    /// further meaning.
    pub fn get_crc(&self) -> (n: u32)
        ensures
            n as nat == le_u32(self@.crc),
    {
        crate::codec::decode_le_u32(&self.chunk_crc)
    }

    /// Builds a fresh chunk from a type tag and a text payload: the length
    /// field is the big-endian byte count of the payload, the checksum field
    /// is four zero bytes.
    pub fn create_chunk(header: &str, data: &str) -> (c: PngChunk)
        requires
            header.spec_bytes().len() == 4,
            data.spec_bytes().len() <= u32::MAX,
        ensures
            c@.type_tag == header.spec_bytes(),
            c@.data == data.spec_bytes(),
            c@.crc == seq![0u8, 0u8, 0u8, 0u8],
            be_u32(c@.length) == data.spec_bytes().len(),
            c.wf(),
    {
        let hb: Vec<u8> = header.as_bytes_vec();
        let db: Vec<u8> = data.as_bytes_vec();
        let len_field: [u8; 4] = crate::codec::encode_be_u32(db.len() as u32);
        let c = PngChunk {
            chunk_length: len_field,
            chunk_type: [hb[0], hb[1], hb[2], hb[3]],
            chunk_data: db,
            chunk_crc: [0u8, 0u8, 0u8, 0u8],
        };
        proof {
            assert(c@.type_tag =~= header.spec_bytes());
            assert(c@.crc =~= seq![0u8, 0u8, 0u8, 0u8]);
        }
        c
    }
}

} // verus!
