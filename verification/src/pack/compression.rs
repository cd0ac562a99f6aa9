//! Compression of archives with zstd, and where an archive unfolds.

use vstd::prelude::*;
use super::PackError;
use super::cli::{new_uuid, is_uuid_v4_text};

verus! {

/// The level the packer compresses at.
pub const COMPRESSION_LEVEL: i32 = 19;

/// What `zstd::stream::encode_all` gives for `data` at `level`: a zstd frame,
/// or the message of the error that the compressor reports.
pub uninterp spec fn zstd_compressed(data: Seq<u8>, level: int) -> Result<Seq<u8>, Seq<char>>;

/// What `zstd::stream::decode_all` gives for `data`: the decompressed bytes,
/// or the message of the error it reports where `data` is not zstd frames.
pub uninterp spec fn zstd_decompressed(data: Seq<u8>) -> Result<Seq<u8>, Seq<char>>;

/// Calls `zstd::stream::encode_all` on `data`: the result, with an error
/// written out as its message, is the one `zstd_compressed` names. What the
/// frame holds is not stated.
#[verifier::external_body]
fn zstd_encode_all(data: &[u8], level: i32) -> (r: Result<Vec<u8>, String>)
    ensures
        match zstd_compressed(data@, level as int) {
            Ok(c) => r matches Ok(v) && v@ == c,
            Err(m) => r matches Err(e) && e@ == m,
        },
{
    match zstd::stream::encode_all(data, level) {
        Ok(v) => Ok(v),
        Err(e) => Err(e.to_string()),
    }
}

/// Calls `zstd::stream::decode_all` on `data`: the result, with an error
/// written out as its message, is the one `zstd_decompressed` names, and,
/// zstd being lossless, a frame that `encode_all` made at the packer's level
/// decompresses to the bytes it was made from. Nothing else is stated of the
/// bytes.
#[verifier::external_body]
fn zstd_decode_all(data: &[u8]) -> (r: Result<Vec<u8>, String>)
    ensures
        match zstd_decompressed(data@) {
            Ok(d) => r matches Ok(v) && v@ == d,
            Err(m) => r matches Err(e) && e@ == m,
        },
        match r {
            Ok(v) => forall|d: Seq<u8>| #[trigger] zstd_compressed(d, 19) == Ok::<Seq<u8>, Seq<char>>(data@) ==> v@ == d,
            Err(_) => forall|d: Seq<u8>| #[trigger] zstd_compressed(d, 19) != Ok::<Seq<u8>, Seq<char>>(data@),
        },
{
    match zstd::stream::decode_all(data) {
        Ok(v) => Ok(v),
        Err(e) => Err(e.to_string()),
    }
}

/// Compresses a tar archive at the packer's level; an error of the
/// compressor is passed on with its message.
pub fn compress_tar_bytes(tar: &[u8]) -> (r: Result<Vec<u8>, PackError>)
    ensures
        match zstd_compressed(tar@, 19) {
            Ok(c) => r matches Ok(v) && v@ == c,
            Err(m) => r matches Err(PackError::CompressionFailure(e)) && e@ == m,
        },
{
    match zstd_encode_all(tar, COMPRESSION_LEVEL) {
        Ok(v) => Ok(v),
        Err(m) => Err(PackError::CompressionFailure(m)),
    }
}

/// Decompresses an archive; what [`compress_tar_bytes`] made comes back
/// unchanged, and an error of the decompressor is passed on with its
/// message.
pub fn decompress_bytes(data: &[u8]) -> (r: Result<Vec<u8>, PackError>)
    ensures
        match zstd_decompressed(data@) {
            Ok(d) => r matches Ok(v) && v@ == d,
            Err(m) => r matches Err(PackError::DecompressionFailure(e)) && e@ == m,
        },
        forall|d: Seq<u8>|
            #[trigger] zstd_compressed(d, 19) == Ok::<Seq<u8>, Seq<char>>(data@) ==> (r matches Ok(v)
                && v@ == d),
{
    match zstd_decode_all(data) {
        Ok(v) => Ok(v),
        Err(m) => Err(PackError::DecompressionFailure(m)),
    }
}

/// Where an archive unfolds: the asked directory, or, where that exists
/// already, the asked directory with `-` and a fresh `unique` name after it.
pub open spec fn extraction_dir_spec(output_dir: Seq<char>, exists: bool, unique: Seq<char>) -> Seq<
    char,
> {
    if exists {
        output_dir + seq!['-'] + unique
    } else {
        output_dir
    }
}

/// Where an archive unfolds (see [`extraction_dir_spec`]).
pub fn extraction_dir(output_dir: &str, exists: bool, unique: &str) -> (r: String)
    ensures
        r@ == extraction_dir_spec(output_dir@, exists, unique@),
{
    let mut r = String::from_str(output_dir);
    if exists {
        r.push('-');
        r.append(unique);
    }
    r
}

/// Where an archive unfolds, with a fresh random UUID as the unique name
/// where the asked directory exists already (see [`extraction_dir_spec`]).
pub fn fresh_extraction_dir(output_dir: &str, exists: bool) -> (r: String)
    ensures
        !exists ==> r@ == output_dir@,
        exists ==> exists|id: Seq<char>|
            is_uuid_v4_text(id) && r@ == #[trigger] extraction_dir_spec(output_dir@, true, id),
{
    if exists {
        let id = new_uuid();
        let r = extraction_dir(output_dir, true, id.as_str());
        assert(r@ == extraction_dir_spec(output_dir@, true, id@));
        r
    } else {
        extraction_dir(output_dir, false, "")
    }
}

/// What the archiver does with one entry of the folder it walks.
#[derive(Debug, Clone, Copy, PartialEq, Eq, Structural)]
pub enum TarEntry {
    /// A symbolic link whose target exists: the target's contents go in
    /// under the link's path.
    AppendLinkTarget,
    /// A symbolic link whose target is missing: skipped with a warning.
    SkipMissingLinkTarget,
    /// A symbolic link that cannot be read: skipped with a warning.
    SkipUnreadableLink,
    /// An existing path: it goes in as it is.
    AppendPath,
    /// A path that does not exist (any more): skipped with a warning.
    SkipMissing,
}

/// What the archiver does with an entry: `is_symlink` tells whether it is a
/// symbolic link, `link_target_exists` whether the link's target exists
/// (`None` where the link cannot be read), and `exists` whether the path
/// exists.
pub open spec fn tar_entry_spec(is_symlink: bool, link_target_exists: Option<bool>, exists: bool) -> TarEntry {
    if is_symlink {
        match link_target_exists {
            Some(true) => TarEntry::AppendLinkTarget,
            Some(false) => TarEntry::SkipMissingLinkTarget,
            None => TarEntry::SkipUnreadableLink,
        }
    } else if exists {
        TarEntry::AppendPath
    } else {
        TarEntry::SkipMissing
    }
}

/// What the archiver does with an entry (see [`tar_entry_spec`]).
pub fn tar_entry(is_symlink: bool, link_target_exists: Option<bool>, exists: bool) -> (r: TarEntry)
    ensures
        r == tar_entry_spec(is_symlink, link_target_exists, exists),
{
    if is_symlink {
        match link_target_exists {
            Some(true) => TarEntry::AppendLinkTarget,
            Some(false) => TarEntry::SkipMissingLinkTarget,
            None => TarEntry::SkipUnreadableLink,
        }
    } else if exists {
        TarEntry::AppendPath
    } else {
        TarEntry::SkipMissing
    }
}

} // verus!
