//! Extraction of the source archive: the single zipped entry is read and
//! its legacy Shift-JIS bytes are decoded, best-effort, to text.

use vstd::prelude::*;

use std::io::Read;

use crate::UpdateError;

verus! {

/// What reading a zip archive yields: its entry count and the bytes of its
/// first entry, or nothing when the bytes are not a readable archive.
pub uninterp spec fn zip_parse(bytes: Seq<u8>) -> Option<(int, Seq<u8>)>;

/// What Shift-JIS decoding with substitution yields on a byte string.
pub uninterp spec fn sjis_decode(bytes: Seq<u8>) -> Seq<char>;

/// Relies on zip's ZipArchive: the central directory's entry count and the
/// decompressed first entry are a function of the archive bytes alone.
#[verifier::external_body]
fn zip_first_entry(bytes: &[u8]) -> (r: Option<(usize, Vec<u8>)>)
    ensures
        match r {
            Some(p) => zip_parse(bytes@) == Some((p.0 as int, p.1@)),
            None => zip_parse(bytes@) is None,
        },
{
    let cursor = std::io::Cursor::new(bytes);
    let mut archive = match zip::ZipArchive::new(cursor) {
        Ok(a) => a,
        Err(_) => return None,
    };
    let count = archive.len();
    let mut file = match archive.by_index(0) {
        Ok(f) => f,
        Err(_) => return None,
    };
    let mut out = Vec::new();
    match file.read_to_end(&mut out) {
        Ok(_) => Some((count, out)),
        Err(_) => None,
    }
}

/// Relies on encoding_rs's SHIFT_JIS decoder: best-effort decoding, with
/// substitution of malformed sequences, is a function of the bytes alone.
#[verifier::external_body]
fn sjis_to_string(bytes: &[u8]) -> (r: String)
    ensures
        r@ == sjis_decode(bytes@),
{
    let (s, _, _) = encoding_rs::SHIFT_JIS.decode(bytes);
    s.into_owned()
}

/// The decoded contents of the archive's single entry; an unreadable
/// archive, or any entry count other than one, is an archive error.
pub open spec fn archive_contents(bytes: Seq<u8>) -> Result<Seq<char>, UpdateError> {
    match zip_parse(bytes) {
        None => Err(UpdateError::Archive),
        Some(p) => if p.0 == 1 {
            Ok(sjis_decode(p.1))
        } else {
            Err(UpdateError::Archive)
        },
    }
}

/// Extracts the archive's single entry and decodes its text.
pub fn zip_to_file_contents(bytes: &[u8]) -> (r: Result<String, UpdateError>)
    ensures
        match r {
            Ok(s) => archive_contents(bytes@) == Ok::<Seq<char>, UpdateError>(s@),
            Err(e) => archive_contents(bytes@) == Err::<Seq<char>, UpdateError>(e),
        },
{
    match zip_first_entry(bytes) {
        None => Err(UpdateError::Archive),
        Some((count, entry)) => {
            if count == 1 {
                Ok(sjis_to_string(entry.as_slice()))
            } else {
                Err(UpdateError::Archive)
            }
        },
    }
}

} // verus!
