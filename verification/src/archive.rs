//! Trusted bindings to the archive container.
//!
//! The store's backing file is a zip archive used purely as a random-
//! access map from entry names to byte blobs, held in memory. `entries`
//! is that map's mathematical shadow: the contents of every entry that
//! reads back cleanly, keyed by name; `zip_ok` and `archive_entries`
//! say, of the raw bytes, whether they open as an archive and what that
//! archive then holds. All three are deterministic in their arguments.
//! Reading never changes what an archive holds.

use vstd::prelude::*;

use crate::EchtError;

verus! {

#[verifier::external_type_specification]
#[verifier::external_body]
#[verifier::reject_recursive_types(R)]
pub struct ExZipArchive<R>(zip::ZipArchive<R>);

#[verifier::external_type_specification]
#[verifier::external_body]
#[verifier::reject_recursive_types(T)]
pub struct ExCursor<T>(std::io::Cursor<T>);

/// Whether `zip::ZipArchive::new` accepts the bytes as an archive.
pub uninterp spec fn zip_ok(data: Seq<u8>) -> bool;

/// What the archive over these bytes holds: the decompressed contents
/// of each cleanly readable entry, keyed by entry name.
pub uninterp spec fn archive_entries(data: Seq<u8>) -> Map<Seq<char>, Seq<u8>>;

/// What an open archive holds; `read_entry` preserves it.
pub uninterp spec fn entries(z: zip::ZipArchive<std::io::Cursor<Vec<u8>>>) -> Map<
    Seq<char>,
    Seq<u8>,
>;

/// The entry names the archive's directory lists, readable or not.
/// Asking for any other name is answered "not found"; a listed entry
/// that cannot be served fails with a different error.
pub uninterp spec fn zip_names(z: zip::ZipArchive<std::io::Cursor<Vec<u8>>>) -> Set<Seq<char>>;

/// Relies on zip::ZipArchive::new: reads the central directory of a zip
/// archive held in memory, failing on anything it cannot read as one;
/// deterministic in the bytes.
#[verifier::external_body]
pub(crate) fn open_archive(data: Vec<u8>) -> (r: Result<
    zip::ZipArchive<std::io::Cursor<Vec<u8>>>,
    EchtError,
>)
    ensures
        r is Ok <==> zip_ok(data@),
        r matches Ok(z) ==> entries(z) == archive_entries(data@),
        r matches Err(e) ==> e == EchtError::BadArchive,
{
    match zip::ZipArchive::new(std::io::Cursor::new(data)) {
        Ok(z) => Ok(z),
        Err(_) => Err(EchtError::BadArchive),
    }
}

/// Relies on zip::ZipArchive::by_name_decrypt, which answers
/// FileNotFound exactly when the archive's directory lists no entry of
/// that name (`zip_names`) and
/// hands back an inner error — never a panic — for an entry it cannot
/// serve without a real password, and on std::io::Read::read_to_end on
/// the entry it returns, which yields the entry's full decompressed
/// contents or fails on corrupt data. Both are deterministic over an
/// in-memory archive, so a name the entry map holds always reads back,
/// an unlisted name is exactly EntryNotFound, and a listed entry that
/// cannot be served (whatever the library refuses it for) is the
/// corrupt-entry class.
#[verifier::external_body]
pub(crate) fn read_entry(
    z: &mut zip::ZipArchive<std::io::Cursor<Vec<u8>>>,
    name: &str,
) -> (r: Result<Vec<u8>, EchtError>)
    ensures
        entries(*final(z)) == entries(*old(z)),
        zip_names(*final(z)) == zip_names(*old(z)),
        r is Ok <==> entries(*old(z)).contains_key(name@),
        r is Ok ==> zip_names(*old(z)).contains(name@),
        r matches Ok(buf) ==> buf@ == entries(*old(z))[name@],
        r matches Err(e) ==> e == EchtError::EntryNotFound || e == EchtError::CorruptBlock,
        r matches Err(e) ==> (e == EchtError::EntryNotFound <==> !zip_names(*old(z)).contains(
            name@,
        )),
{
    let mut f = match z.by_name_decrypt(name, b"") {
        Ok(Ok(f)) => f,
        Ok(Err(_)) => return Err(EchtError::CorruptBlock),
        Err(zip::result::ZipError::FileNotFound) => return Err(EchtError::EntryNotFound),
        Err(_) => return Err(EchtError::CorruptBlock),
    };
    let mut buf: Vec<u8> = Vec::new();
    match std::io::Read::read_to_end(&mut f, &mut buf) {
        Ok(_) => Ok(buf),
        Err(_) => Err(EchtError::CorruptBlock),
    }
}

} // verus!
