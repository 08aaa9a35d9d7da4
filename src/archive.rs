use vstd::prelude::*;
use std::io::Cursor;
use zip::result::ZipError;
use zip::ZipArchive;
use crate::error::LaunchError;
use crate::tree::EntryView;

verus! {

#[verifier::external_type_specification]
#[verifier::external_body]
#[verifier::reject_recursive_types(R)]
pub struct ExZipArchive<R>(ZipArchive<R>);

#[verifier::external_type_specification]
#[verifier::external_body]
pub struct ExZipError(ZipError);

#[verifier::external_type_specification]
#[verifier::external_body]
#[verifier::reject_recursive_types(T)]
pub struct ExCursor<T>(Cursor<T>);

/// The entries of an open archive, in index order: name, directory flag and
/// decompressed content of each, and whether the entry can be read and
/// decoded at all (its name, its local header, its stream and its checksum).
pub uninterp spec fn zip_entries(a: ZipArchive<Cursor<Vec<u8>>>) -> Seq<(Seq<char>, bool, Seq<u8>, bool)>;

/// Whether the given bytes hold an archive whose central directory can be read.
pub uninterp spec fn zip_opens(b: Seq<u8>) -> bool;

/// The entries that the archive held in the given bytes, in index order.
pub uninterp spec fn zip_listing(b: Seq<u8>) -> Seq<(Seq<char>, bool, Seq<u8>, bool)>;

pub open spec fn entry_view(x: (Seq<char>, bool, Seq<u8>, bool)) -> EntryView {
    EntryView { name: x.0, is_dir: x.1, data: x.2 }
}

/// The entries that the archive in `b` holds, as the tree model sees them.
pub open spec fn archive_entries(b: Seq<u8>) -> Seq<EntryView> {
    zip_listing(b).map_values(|x: (Seq<char>, bool, Seq<u8>, bool)| entry_view(x))
}

/// Every entry of the archive in `b` can be decoded.
pub open spec fn all_entries_decode(b: Seq<u8>) -> bool {
    forall|i: int| 0 <= i < zip_listing(b).len() ==> (#[trigger] zip_listing(b)[i]).3
}

/// Relies on zip::ZipArchive::new: reads the central directory of the
/// archive held in memory; what it lists depends on the bytes alone.
#[verifier::external_body]
fn open_archive(bytes: Vec<u8>) -> (r: Result<ZipArchive<Cursor<Vec<u8>>>, ZipError>)
    ensures
        r is Ok <==> zip_opens(bytes@),
        r matches Ok(a) ==> zip_entries(a) == zip_listing(bytes@),
{
    ZipArchive::new(Cursor::new(bytes))
}

/// Relies on zip::ZipArchive::len: the number of entries in the archive.
#[verifier::external_body]
fn entry_count(a: &ZipArchive<Cursor<Vec<u8>>>) -> (r: usize)
    ensures
        r == zip_entries(*a).len(),
{
    a.len()
}

/// Relies on zip::ZipArchive::by_index and the returned file's `name`,
/// `is_dir` and `Read` impl: entry `i`, its content decompressed; reading
/// does not change what the archive lists.
#[verifier::external_body]
fn read_entry(a: &mut ZipArchive<Cursor<Vec<u8>>>, i: usize) -> (r: Result<(String, bool, Vec<u8>), ZipError>)
    requires
        i < zip_entries(*old(a)).len(),
    ensures
        zip_entries(*final(a)) == zip_entries(*old(a)),
        r is Ok <==> zip_entries(*old(a))[i as int].3,
        r matches Ok(e) ==> (e.0@, e.1, e.2@, true) == zip_entries(*old(a))[i as int],
{
    let mut file = a.by_index(i)?;
    let name = file.name()?.into_owned();
    let is_dir = file.is_dir();
    let mut data: Vec<u8> = Vec::new();
    std::io::Read::read_to_end(&mut file, &mut data).map_err(ZipError::Io)?;
    Ok((name, is_dir, data))
}

/// One entry of the embedded archive.
pub struct ArchiveEntry {
    pub name: String,
    pub is_dir: bool,
    pub data: Vec<u8>,
}

impl View for ArchiveEntry {
    type V = EntryView;

    open spec fn view(&self) -> EntryView {
        EntryView { name: self.name@, is_dir: self.is_dir, data: self.data@ }
    }
}

pub open spec fn entries_view(v: Seq<ArchiveEntry>) -> Seq<EntryView> {
    v.map_values(|e: ArchiveEntry| e@)
}

/// Opens the archive held in `bytes` and reads every entry, in index order.
/// A buffer that is no archive gives `ArchiveCorrupt`; otherwise the first
/// entry that cannot be decoded gives `EntryReadError`, and nothing of the
/// archive is returned.
#[verifier::loop_isolation(false)]
pub fn read_archive(bytes: Vec<u8>) -> (r: Result<Vec<ArchiveEntry>, LaunchError>)
    ensures
        r is Ok <==> zip_opens(bytes@) && all_entries_decode(bytes@),
        r matches Ok(v) ==> entries_view(v@) == archive_entries(bytes@),
        (r matches Err(e) && e == LaunchError::ArchiveCorrupt) <==> !zip_opens(bytes@),
        (r matches Err(e) && e == LaunchError::EntryReadError) <==> zip_opens(bytes@)
            && !all_entries_decode(bytes@),
{
    let ghost listing = zip_listing(bytes@);
    let ghost b = bytes@;
    let mut archive = match open_archive(bytes) {
        Ok(a) => a,
        Err(_) => {
            assert(!zip_opens(b));
            return Err(LaunchError::ArchiveCorrupt);
        },
    };
    let n = entry_count(&archive);
    let mut out: Vec<ArchiveEntry> = Vec::new();
    let mut i: usize = 0;
    while i < n
        invariant
            n == listing.len(),
            zip_entries(archive) == listing,
            i <= n,
            out@.len() == i,
            forall|k: int| 0 <= k < i ==> out@[k]@ == entry_view(#[trigger] listing[k]),
            forall|k: int| 0 <= k < i ==> (#[trigger] listing[k]).3,
            zip_opens(b),
            listing == zip_listing(b),
        decreases n - i,
    {
        match read_entry(&mut archive, i) {
            Ok((name, is_dir, data)) => {
                out.push(ArchiveEntry { name, is_dir, data });
            },
            Err(_) => {
                assert(!zip_listing(b)[i as int].3);
                assert(!all_entries_decode(b));
                return Err(LaunchError::EntryReadError);
            },
        }
        i = i + 1;
    }
    assert(entries_view(out@) =~= archive_entries(b));
    assert forall|k: int| 0 <= k < zip_listing(b).len() implies (#[trigger] zip_listing(b)[k]).3 by {
        assert(listing[k].3);
    }
    Ok(out)
}

} // verus!
