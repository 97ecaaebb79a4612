//! The runtime archive as it comes from the network.
//!
//! The `zip` crate reads the archive. What is trusted of it stands here: the
//! declarations of three types, two names for what it computes, and two
//! wrappers that call it. The rest of the library is proved from these.

use crate::error::Error;
use std::io::Cursor;
use vstd::prelude::*;
use zip::result::ZipError;
use zip::ZipArchive;

verus! {

/// `std::io::Cursor`, a reader over bytes in memory. Nothing is known of it
/// here.
#[verifier::external_type_specification]
#[verifier::external_body]
#[verifier::reject_recursive_types(T)]
pub struct ExCursor<T>(Cursor<T>);

/// `zip::ZipArchive`, an archive that was opened. Nothing is known of it here
/// but what `archive_bytes` names.
#[verifier::external_type_specification]
#[verifier::external_body]
#[verifier::reject_recursive_types(R)]
pub struct ExZipArchive<R>(ZipArchive<R>);

/// `zip::result::ZipError`, the reason for which `zip` gave up.
#[verifier::external_type_specification]
#[verifier::external_body]
pub struct ExZipError(ZipError);

/// An archive that was opened from bytes in memory.
pub type Archive = ZipArchive<Cursor<Vec<u8>>>;

/// Whether `zip::ZipArchive::new` opens these bytes as an archive.
pub uninterp spec fn is_archive(bytes: Seq<u8>) -> bool;

/// The bytes that an archive reads from.
pub uninterp spec fn archive_bytes(archive: Archive) -> Seq<u8>;

/// Calls `zip::ZipArchive::new` on a cursor over `bytes`. Whether the bytes
/// are opened depends on the bytes alone, and an archive that was opened reads
/// from the bytes it was given.
#[verifier::external_body]
fn open_archive(bytes: Vec<u8>) -> (opened: Result<Archive, ZipError>)
    ensures
        opened is Ok <==> is_archive(bytes@),
        opened matches Ok(archive) ==> archive_bytes(archive) == bytes@,
{
    ZipArchive::new(Cursor::new(bytes))
}

/// Calls `to_string` on a `zip::result::ZipError`: the text that `zip` gives
/// for the error.
#[verifier::external_body]
fn describe(error: &ZipError) -> (text: String) {
    error.to_string()
}

/// Opens the bytes that were fetched as an archive.
pub fn download_ue4ss(body: Vec<u8>) -> (opened: Result<Archive, Error>)
    ensures
        opened is Ok <==> is_archive(body@),
        opened matches Ok(archive) ==> archive_bytes(archive) == body@,
        opened matches Err(error) ==> error is Zip,
{
    match open_archive(body) {
        Ok(archive) => Ok(archive),
        Err(error) => Err(Error::Zip(describe(&error))),
    }
}

} // verus!
