//! Reading the entries of a ZIP archive held in memory.
//!
//! Decoding the ZIP container is delegated to the `zip` crate; this module
//! declares the crate's archive type, gives its entry list a name, and
//! wraps the calls the planner needs.  Everything downstream of the
//! wrappers — planning the extraction — is verified against those names.

use vstd::prelude::*;

use crate::plan::Action;
use crate::plan::Entry;
use crate::plan::plan_entries;
use crate::plan::plan_of;

verus! {

#[verifier::external_type_specification]
#[verifier::external_body]
#[verifier::reject_recursive_types(R)]
pub struct ExZipArchive<R>(zip::ZipArchive<R>);

#[verifier::external_type_specification]
#[verifier::external_body]
pub struct ExZipError(zip::result::ZipError);

#[verifier::external_type_specification]
#[verifier::external_body]
#[verifier::reject_recursive_types(T)]
pub struct ExCursor<T>(std::io::Cursor<T>);

/// The entries an in-memory archive holds, in stored order: each is the
/// UTF-8 bytes of its decoded name, paired with its decompressed contents.
pub uninterp spec fn archive_entries(a: zip::ZipArchive<std::io::Cursor<Vec<u8>>>) -> Seq<
    (Seq<u8>, Seq<u8>),
>;

/// The bytes an in-memory archive reads from.
pub uninterp spec fn archive_bytes(a: zip::ZipArchive<std::io::Cursor<Vec<u8>>>) -> Seq<u8>;

/// The entries that parsing `bytes` as a ZIP archive yields: parsing reads
/// nothing but the bytes, so the result depends on them alone.
pub uninterp spec fn entries_of(bytes: Seq<u8>) -> Seq<(Seq<u8>, Seq<u8>)>;

/// Whether `bytes` parse as a ZIP archive: a function of the bytes alone.
pub uninterp spec fn zip_parses(bytes: Seq<u8>) -> bool;

/// Whether entry `i` of the archive in `bytes` decodes — its content can
/// be read back in full: a function of the bytes and the index alone.
pub uninterp spec fn entry_decodes(bytes: Seq<u8>, i: int) -> bool;

/// Relies on zip's `ZipArchive::new`: parses the central directory of the
/// in-memory archive bytes, deterministically; whether it succeeds and the
/// entry list of the archive it returns are functions of the bytes alone.
#[verifier::external_body]
fn zip_open(bytes: Vec<u8>) -> (r: Result<
    zip::ZipArchive<std::io::Cursor<Vec<u8>>>,
    zip::result::ZipError,
>)
    ensures
        (r is Ok) == zip_parses(bytes@),
        r matches Ok(a) ==> archive_entries(a) == entries_of(bytes@) && archive_bytes(a)
            == bytes@,
{
    zip::ZipArchive::new(std::io::Cursor::new(bytes))
}

/// Relies on zip's `ZipArchive::len`: the number of entries the central
/// directory holds.
#[verifier::external_body]
fn zip_len(a: &zip::ZipArchive<std::io::Cursor<Vec<u8>>>) -> (n: usize)
    ensures
        n == archive_entries(*a).len(),
{
    a.len()
}

/// Relies on zip's `ZipArchive::by_index` and `ZipFile::name`, and on
/// std's `Read::read_to_end`: hands back entry `i`'s decoded name and its
/// decompressed contents, and leaves the archive's bytes and entry list
/// unchanged; reading an in-memory cursor, whether entry `i` decodes is a
/// function of the bytes and the index alone.
#[verifier::external_body]
fn zip_entry(a: &mut zip::ZipArchive<std::io::Cursor<Vec<u8>>>, i: usize) -> (r: Result<
    Entry,
    zip::result::ZipError,
>)
    requires
        i < archive_entries(*old(a)).len(),
    ensures
        archive_entries(*final(a)) == archive_entries(*old(a)),
        archive_bytes(*final(a)) == archive_bytes(*old(a)),
        (r is Ok) == entry_decodes(archive_bytes(*old(a)), i as int),
        r matches Ok(e) ==> e@ == archive_entries(*old(a))[i as int],
{
    let mut f = a.by_index(i)?;
    let name = f.name().as_bytes().to_vec();
    let mut data: Vec<u8> = Vec::new();
    std::io::Read::read_to_end(&mut f, &mut data)?;
    Ok(Entry { name, data })
}

/// Why extraction planning failed: the bytes are not a readable archive,
/// or one entry could not be decoded.
#[derive(Debug, PartialEq, Eq, Structural)]
pub enum ExtractError {
    BadArchive,
    BadEntry,
}

/// Reads every entry of the archive, in stored order.  It succeeds
/// exactly when every entry decodes, and fails at the first that does
/// not.
pub fn read_entries(a: &mut zip::ZipArchive<std::io::Cursor<Vec<u8>>>) -> (r: Result<
    Vec<Entry>,
    ExtractError,
>)
    ensures
        archive_entries(*final(a)) == archive_entries(*old(a)),
        archive_bytes(*final(a)) == archive_bytes(*old(a)),
        r matches Ok(es) ==> es@.map_values(|e: Entry| e@) == archive_entries(*old(a)),
        (r is Ok) <==> (forall|i: int|
            0 <= i < archive_entries(*old(a)).len() ==> entry_decodes(
                archive_bytes(*old(a)),
                i,
            )),
        r matches Err(err) ==> err == ExtractError::BadEntry,
{
    let n = zip_len(a);
    let mut es: Vec<Entry> = Vec::new();
    let mut i: usize = 0;
    while i < n
        invariant
            0 <= i <= n,
            n == archive_entries(*a).len(),
            archive_entries(*a) == archive_entries(*old(a)),
            archive_bytes(*a) == archive_bytes(*old(a)),
            es@.len() == i,
            es@.map_values(|e: Entry| e@) == archive_entries(*a).take(i as int),
            forall|j: int| 0 <= j < i ==> entry_decodes(archive_bytes(*old(a)), j),
        decreases n - i,
    {
        let e = match zip_entry(a, i) {
            Ok(e) => e,
            Err(_) => return Err(ExtractError::BadEntry),
        };
        es.push(e);
        proof {
            assert(es@.map_values(|e: Entry| e@) =~= es@.drop_last().map_values(
                |e: Entry| e@,
            ).push(es@.last()@));
            assert(es@.map_values(|e: Entry| e@) =~= archive_entries(*a).take(i as int + 1));
        }
        i = i + 1;
    }
    proof {
        assert(archive_entries(*a).take(n as int) =~= archive_entries(*a));
    }
    Ok(es)
}

/// Parses `bytes` as a ZIP archive and plans its extraction: one action
/// per entry, in stored order.  It succeeds exactly when the bytes parse
/// and every entry decodes; `BadArchive` marks a failed parse, `BadEntry`
/// an entry that did not decode.
pub fn extract_plan(bytes: Vec<u8>) -> (r: Result<Vec<Action>, ExtractError>)
    ensures
        r matches Ok(acts) ==> acts@.map_values(|a: Action| a@) == plan_of(entries_of(bytes@)),
        (r is Ok) <==> (zip_parses(bytes@) && forall|i: int|
            0 <= i < entries_of(bytes@).len() ==> entry_decodes(bytes@, i)),
        r matches Err(err) ==> (err == ExtractError::BadArchive <==> !zip_parses(bytes@)),
{
    let ghost bs = bytes@;
    let mut archive = match zip_open(bytes) {
        Ok(a) => a,
        Err(_) => return Err(ExtractError::BadArchive),
    };
    let entries = match read_entries(&mut archive) {
        Ok(es) => es,
        Err(err) => return Err(err),
    };
    Ok(plan_entries(&entries))
}

} // verus!
