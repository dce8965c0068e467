//! Reading and writing glTF models: telling binary GLB from JSON glTF,
//! taking a GLB apart, and placing its binary chunk in the first buffer.
use vstd::prelude::*;
use crate::attribute::Buffer;
use crate::glb::{
    extract_glb_chunks, glb_magic, glb_roundtrip_chunks, lemma_glb_roundtrip, spec_create_glb,
    spec_extract_glb, ChunkAcc, GlbError,
};
use crate::text::has_suffix;
use crate::uri::{absolute_uri_path, is_model_glb};

verus! {

/// The JSON document of a model and, for a GLB, its binary chunk.
#[derive(Debug)]
pub struct ModelParts {
    pub json: Vec<u8>,
    pub bin: Option<Vec<u8>>,
}

/// Whether `is_model_glb` takes a model for GLB.
pub open spec fn spec_is_glb(uri: Seq<char>, bytes: Seq<u8>) -> bool {
    (absolute_uri_path(uri) matches Some(p) && has_suffix(p, ".glb"@)) || (bytes.len() >= 4
        && bytes.take(4) == seq![0x67u8, 0x6Cu8, 0x54u8, 0x46u8])
}

/// Splits a model read from `uri` into its JSON and binary data: a GLB
/// (by its path or its magic) is taken apart, anything else is JSON glTF
/// as it stands.
pub fn read_model_parts(uri: &str, bytes: &[u8]) -> (r: Result<ModelParts, GlbError>)
    ensures
        spec_is_glb(uri@, bytes@) ==> match spec_extract_glb(bytes@) {
            Ok(acc) => r matches Ok(p) && acc.json == Some(p.json@) && acc.bin == match p.bin {
                Some(b) => Some(b@),
                None => None::<Seq<u8>>,
            },
            Err(e) => r == Err::<ModelParts, GlbError>(e),
        },
        !spec_is_glb(uri@, bytes@) ==> (r matches Ok(p) && p.json@ == bytes@ && p.bin is None),
{
    if is_model_glb(uri, bytes) {
        match extract_glb_chunks(bytes) {
            Ok(chunks) => Ok(ModelParts { json: chunks.json, bin: chunks.bin }),
            Err(e) => Err(e),
        }
    } else {
        Ok(ModelParts { json: vstd::slice::slice_to_vec(bytes), bin: None })
    }
}

/// Gives a GLB's binary chunk to the first buffer when that buffer has no
/// URI; every other buffer, and a first buffer with a URI, stay as they
/// are.
pub fn attach_glb_bin(buffers: &mut Vec<Buffer>, bin: Option<Vec<u8>>)
    ensures
        final(buffers)@.len() == old(buffers)@.len(),
        forall|i: int| 1 <= i < old(buffers)@.len() ==> final(buffers)@[i] == old(buffers)@[i],
        old(buffers)@.len() > 0 ==> {
            &&& final(buffers)@[0].uri == old(buffers)@[0].uri
            &&& final(buffers)@[0].byte_length == old(buffers)@[0].byte_length
            &&& final(buffers)@[0].name == old(buffers)@[0].name
            &&& final(buffers)@[0].data@ == match bin {
                Some(b) => if old(buffers)@[0].uri is None {
                    b@
                } else {
                    old(buffers)@[0].data@
                },
                None => old(buffers)@[0].data@,
            }
        },
{
    match bin {
        None => {},
        Some(b) => {
            if buffers.len() > 0 && buffers[0].uri.is_none() {
                let mut first = buffers.remove(0);
                first.data = b;
                buffers.insert(0, first);
            }
        },
    }
}

/// The data that goes into a GLB's binary chunk: the first buffer's, when
/// it has no URI.
pub fn glb_bin_data(buffers: &[Buffer]) -> (r: Option<&[u8]>)
    ensures
        buffers@.len() > 0 && buffers@[0].uri is None ==> (r matches Some(d) && d@
            == buffers@[0].data@),
        !(buffers@.len() > 0 && buffers@[0].uri is None) ==> r is None,
{
    if buffers.len() > 0 && buffers[0].uri.is_none() {
        Some(buffers[0].data.as_slice())
    } else {
        None
    }
}

/// A model written by `create_glb` is taken for a GLB whatever its URI, and
/// `read_model_parts` gives back its JSON padded with spaces and its binary
/// buffer padded with zeros.
pub proof fn lemma_created_model_reads_back(uri: Seq<char>, json: Seq<u8>, bin: Option<Seq<u8>>)
    requires
        json.len() + 3 < 4294967296,
        bin matches Some(b) ==> b.len() + 3 < 4294967296,
    ensures
        spec_is_glb(uri, spec_create_glb(json, bin)),
        spec_extract_glb(spec_create_glb(json, bin)) == Ok::<ChunkAcc, GlbError>(
            glb_roundtrip_chunks(json, bin),
        ),
{
    lemma_glb_roundtrip(json, bin);
}

} // verus!
