//! Opening the compressed archive in which a day's file arrives.

use vstd::prelude::*;

verus! {

/// The error with which the `zip` crate refuses an archive or an entry.
#[verifier::external_type_specification]
#[verifier::external_body]
pub struct ExZipError(zip::result::ZipError);

/// The bytes of the first entry of the ZIP archive `archive`, decompressed;
/// `None` where `archive` cannot be opened, holds no entry, or its first
/// entry cannot be read to its end.
pub uninterp spec fn first_member(archive: Seq<u8>) -> Option<Seq<u8>>;

/// The archive could not be opened, or it holds no entry that can be read.
#[derive(Debug, Clone, Copy, PartialEq, Eq, Structural)]
pub struct CorruptArchiveError {}

/// Calls `zip::ZipArchive::new` on the bytes, `by_index(0)` on the archive
/// and reads the entry to its end. Trusted: the outcome depends on the bytes
/// alone and is the one that `first_member` names; an error of any of the three
/// steps comes back as the crate's own error.
#[verifier::external_body]
fn unzip_first(bytes: &[u8]) -> (r: Result<Vec<u8>, zip::result::ZipError>)
    ensures
        r matches Ok(member) ==> first_member(bytes@) == Some(member@),
        r is Err ==> first_member(bytes@) is None,
{
    let mut archive = zip::ZipArchive::new(std::io::Cursor::new(bytes))?;
    let mut entry = archive.by_index(0)?;
    let mut member = Vec::new();
    std::io::Read::read_to_end(&mut entry, &mut member)?;
    Ok(member)
}

/// What `extract_single_member` returns for the archive `archive`.
pub open spec fn extracted(archive: Seq<u8>) -> Result<Seq<u8>, CorruptArchiveError> {
    match first_member(archive) {
        Some(member) => Ok(member),
        None => Err(CorruptArchiveError {  }),
    }
}

/// The view of an extraction's outcome.
pub open spec fn extraction_view(r: Result<Vec<u8>, CorruptArchiveError>) -> Result<
    Seq<u8>,
    CorruptArchiveError,
> {
    match r {
        Ok(member) => Ok(member@),
        Err(e) => Err(e),
    }
}

/// Reads the first entry of a single-file archive fully into memory. Fails
/// where the archive cannot be opened, is empty, or the entry is damaged.
pub fn extract_single_member(bytes: &[u8]) -> (r: Result<Vec<u8>, CorruptArchiveError>)
    ensures
        extraction_view(r) == extracted(bytes@),
{
    match unzip_first(bytes) {
        Ok(member) => Ok(member),
        Err(_) => Err(CorruptArchiveError {  }),
    }
}

} // verus!
