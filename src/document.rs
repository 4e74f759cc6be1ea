//! Decoding of tree documents through hematite-nbt.
//!
//! Compressed payloads are inflated with flate2, and a document is decoded
//! only once its layout has passed [`well_laid_out`].
//!
//! A decoded document is reduced to one child of its root compound, converted
//! into the library's own [`Tag`]. hematite-nbt is built with its
//! `preserve_order` feature, so compound children keep document order and a
//! decode depends on the bytes alone.

use crate::layout::well_laid_out;
use crate::tag::Tag;
use vstd::prelude::*;

verus! {

#[verifier::external_type_specification]
#[verifier::external_body]
pub struct ExNbtValue(nbt::Value);

#[verifier::external_type_specification]
#[verifier::external_body]
pub struct ExNbtError(nbt::Error);

/// The bytes that a gzip stream inflates to before it ends or breaks off.
pub uninterp spec fn gunzip_prefix(bytes: Seq<u8>) -> Seq<u8>;

/// The bytes that a zlib stream inflates to before it ends or breaks off.
pub uninterp spec fn zlib_prefix(bytes: Seq<u8>) -> Seq<u8>;

/// The root child named `key` of the uncompressed document in `bytes`:
/// `None` when the bytes do not decode, `Some(None)` when the root has no such child.
pub uninterp spec fn plain_child(bytes: Seq<u8>, key: Seq<char>) -> Option<Option<Tag>>;

/// Converts a value of hematite-nbt's tree into a `Tag`, variant by variant;
/// tag kinds that the library never reads become `Tag::Other`. It recurses
/// once per nesting level, and is reached only through `read_plain_child`,
/// on documents whose nesting the layout check has bounded.
#[verifier::external_body]
fn tag_of_value(v: nbt::Value) -> Tag {
    match v {
        nbt::Value::Byte(b) => Tag::Byte(b),
        nbt::Value::Int(i) => Tag::Int(i),
        nbt::Value::String(s) => Tag::Str(s),
        nbt::Value::LongArray(a) => Tag::LongArray(a),
        nbt::Value::List(l) => Tag::List(l.into_iter().map(tag_of_value).collect()),
        nbt::Value::Compound(m) => Tag::Compound(m.into_iter().map(|(k, x)| (k, tag_of_value(x))).collect()),
        _ => Tag::Other,
    }
}

/// Relies on flate2::read::GzDecoder, read to its end with std's
/// `Read::read_to_end`, which keeps the bytes read before an error: a stream
/// cut short still gives what it inflated to.
#[verifier::external_body]
pub(crate) fn inflate_gzip(bytes: &[u8]) -> (r: Vec<u8>)
    ensures
        r@ == gunzip_prefix(bytes@),
{
    let mut out = Vec::new();
    let _ = std::io::Read::read_to_end(&mut flate2::read::GzDecoder::new(bytes), &mut out);
    out
}

/// Relies on flate2::read::ZlibDecoder, read to its end with std's
/// `Read::read_to_end`, which keeps the bytes read before an error: a stream
/// cut short still gives what it inflated to.
#[verifier::external_body]
pub(crate) fn inflate_zlib(bytes: &[u8]) -> (r: Vec<u8>)
    ensures
        r@ == zlib_prefix(bytes@),
{
    let mut out = Vec::new();
    let _ = std::io::Read::read_to_end(&mut flate2::read::ZlibDecoder::new(bytes), &mut out);
    out
}

/// Relies on nbt::Blob::from_reader, which decodes one uncompressed document,
/// and on Blob::get for the root child. The layout check comes first:
/// from_reader sizes buffers by the lengths it reads and recurses once per
/// nesting level, so a negative length or deep nesting would not return.
#[verifier::external_body]
pub(crate) fn read_plain_child(bytes: &[u8], key: &'static str) -> (r: Result<Option<Tag>, nbt::Error>)
    requires
        well_laid_out(bytes@),
    ensures
        match r {
            Ok(t) => plain_child(bytes@, key@) == Some(t),
            Err(_) => plain_child(bytes@, key@) is None,
        },
{
    let blob = nbt::Blob::from_reader(&mut std::io::Cursor::new(bytes))?;
    Ok(blob.get(key).cloned().map(tag_of_value))
}

} // verus!
