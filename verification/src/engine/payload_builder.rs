//! The sealed payload: a checksum, the file extension and the data.
//!
//! Layout: `[32 bytes SHA-256(data)] [1 byte ext length] [ext] [data]`.
use crate::digest::{sha256, sha256_spec};
use crate::text::string_from_utf8;
use vstd::prelude::*;
use vstd::slice::{slice_subrange, slice_to_vec};
use vstd::string::StringSliceAdditionalSpecFns;
use vstd::utf8::{decode_utf8, encode_utf8, valid_utf8};

verus! {

/// The sealed payload of `data` with extension bytes `ext`. The length byte
/// holds the length of `ext` modulo 256.
pub open spec fn sealed_payload(data: Seq<u8>, ext: Seq<u8>) -> Seq<u8> {
    sha256_spec(data)@ + seq![ext.len() as u8] + ext + data
}

/// The extension read back from its bytes: the text they encode, or
/// `"txt"` when they are not valid UTF-8.
pub open spec fn extension_text(ext: Seq<u8>) -> Seq<char> {
    if valid_utf8(ext) {
        decode_utf8(ext)
    } else {
        "txt"@
    }
}

/// What opening a sealed payload gives: `None` when it is too short for the
/// checksum, the length byte and the extension, or when the checksum does
/// not match the data; otherwise the data and the extension.
pub open spec fn opened_payload(block: Seq<u8>) -> Option<(Seq<u8>, Seq<char>)> {
    if block.len() < 33 {
        None
    } else {
        let ext_end = 33 + block[32] as int;
        if block.len() < ext_end {
            None
        } else {
            let data = block.subrange(ext_end, block.len() as int);
            if sha256_spec(data)@ == block.subrange(0, 32) {
                Some((data, extension_text(block.subrange(33, ext_end))))
            } else {
                None
            }
        }
    }
}

/// Seals `data` with its file extension: the SHA-256 checksum of the data,
/// the extension's length (modulo 256), the extension's bytes, the data.
pub fn build_sealed_payload(data: &[u8], ext: &str) -> (sealed: Vec<u8>)
    ensures
        sealed@ == sealed_payload(data@, ext.spec_bytes()),
{
    let hash = sha256(data);
    let ext_bytes = ext.as_bytes();
    let mut sealed: Vec<u8> = Vec::new();
    sealed.extend_from_slice(&hash);
    sealed.push(ext_bytes.len() as u8);
    sealed.extend_from_slice(ext_bytes);
    sealed.extend_from_slice(data);
    assert(sealed@ =~= sealed_payload(data@, ext.spec_bytes()));
    sealed
}

/// `a` and `b` hold the same bytes.
fn same_bytes(a: &[u8], b: &[u8]) -> (eq: bool)
    ensures
        eq == (a@ == b@),
{
    if a.len() != b.len() {
        return false;
    }
    let mut k: usize = 0;
    while k < a.len()
        invariant
            a@.len() == b@.len(),
            k <= a@.len(),
            forall|t: int| 0 <= t < k ==> a@[t] == b@[t],
        decreases a@.len() - k,
    {
        if a[k] != b[k] {
            return false;
        }
        k = k + 1;
    }
    assert(a@ =~= b@);
    true
}

/// Opens a decrypted sealed payload: checks its framing and its checksum
/// and returns the data and the extension (`"txt"` when the extension is
/// not valid UTF-8).
pub fn open_sealed_payload(block: &[u8]) -> (opened: Option<(Vec<u8>, String)>)
    ensures
        match opened {
            Some((data, ext)) => opened_payload(block@) == Some((data@, ext@)),
            None => opened_payload(block@) is None,
        },
{
    if block.len() < 33 {
        return None;
    }
    let hash = slice_subrange(block, 0, 32);
    let ext_len = block[32] as usize;
    if block.len() < 33 + ext_len {
        return None;
    }
    let ext_bytes = slice_to_vec(slice_subrange(block, 33, 33 + ext_len));
    let ext = match string_from_utf8(ext_bytes) {
        Some(text) => text,
        None => String::from_str("txt"),
    };
    let data = slice_to_vec(slice_subrange(block, 33 + ext_len, block.len()));
    let digest = sha256(data.as_slice());
    if same_bytes(&digest, hash) {
        Some((data, ext))
    } else {
        None
    }
}

/// Opening a sealed payload gives back the data and the extension it was
/// sealed with, whenever the extension's UTF-8 form is shorter than 256
/// bytes (longer ones wrap the length byte).
pub proof fn lemma_seal_open_roundtrip(data: Seq<u8>, ext: Seq<char>)
    requires
        encode_utf8(ext).len() < 256,
    ensures
        opened_payload(sealed_payload(data, encode_utf8(ext))) == Some((data, ext)),
{
    let e = encode_utf8(ext);
    let block = sealed_payload(data, e);
    let h = sha256_spec(data)@;
    assert(block[32] == e.len() as u8);
    assert(block.subrange(33, 33 + e.len() as int) =~= e);
    assert(block.subrange(33 + e.len() as int, block.len() as int) =~= data);
    assert(block.subrange(0, 32) =~= h);
    vstd::utf8::encode_utf8_valid_utf8(ext);
    vstd::utf8::encode_utf8_decode_utf8(ext);
}

} // verus!
