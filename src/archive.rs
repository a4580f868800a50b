use vstd::prelude::*;

use rpgmad_lib::ExtractError;

verus! {

/// The error of `rpgmad_lib` for an archive it cannot read.
#[verifier::external_type_specification]
#[verifier::external_body]
pub struct ExExtractError(ExtractError);

/// A file stored in a game archive: its path as stored (bytes that need not
/// be UTF-8) and its contents.
pub struct ArchiveFile {
    pub path: Vec<u8>,
    pub data: Vec<u8>,
}

/// Why an archive could not be unpacked.
pub enum ArchiveError {
    /// The archive's header, engine byte or entry table is invalid.
    Unreadable(ExtractError),
}

/// The files of a list as values: path and contents.
pub open spec fn archive_view(files: Seq<ArchiveFile>) -> Seq<(Seq<u8>, Seq<u8>)> {
    files.map_values(|f: ArchiveFile| (f.path@, f.data@))
}

/// The files that decrypting `archive` gives, in archive order; none when
/// it cannot be decrypted.
pub uninterp spec fn decrypted_files(archive: Seq<u8>) -> Option<Seq<(Seq<u8>, Seq<u8>)>>;

/// Relies on `rpgmad_lib::Decrypter::decrypt`: the outcome depends on the
/// archive bytes alone; on success it yields each stored file's path and
/// contents in archive order.
#[verifier::external_body]
fn decrypt_archive(archive: Vec<u8>) -> (r: Result<Vec<ArchiveFile>, ExtractError>)
    ensures
        r is Ok <==> decrypted_files(archive@) is Some,
        r matches Ok(files) ==> archive_view(files@) == decrypted_files(archive@)->0,
{
    let mut archive = archive;
    let mut decrypter = rpgmad_lib::Decrypter::new();
    let entries = decrypter.decrypt(&mut archive)?;
    Ok(entries.map(|e| ArchiveFile { path: e.path.to_vec(), data: e.data.to_vec() }).collect())
}

/// The files stored in an encrypted RPG Maker archive (`.rgssad`,
/// `.rgss2a`, `.rgss3a`).
pub fn extract_files(archive: Vec<u8>) -> (r: Result<Vec<ArchiveFile>, ArchiveError>)
    ensures
        r is Ok <==> decrypted_files(archive@) is Some,
        r matches Ok(files) ==> archive_view(files@) == decrypted_files(archive@)->0,
{
    match decrypt_archive(archive) {
        Ok(files) => Ok(files),
        Err(e) => Err(ArchiveError::Unreadable(e)),
    }
}

} // verus!
