//! The thumbnail cache: where a rendition is kept and when it may be
//! reused.
//!
//! A rendition is kept under a name derived from the source path and the
//! requested size, so the same request always leads to the same file.

use crate::models::{earlier, is_earlier, texts, Timestamp};
use crate::text::{decimal_digits, decimal_string, digit_char};
use sha2::{Digest, Sha256};
use vstd::prelude::*;
use vstd::string::*;
use vstd::utf8::encode_utf8;

verus! {

/// The size at which the engine keeps thumbnails of indexed files.
pub const DEFAULT_THUMBNAIL_SIZE: u32 = 300;

/// The JPEG quality at which renditions are written.
pub const THUMBNAIL_QUALITY: u8 = 70;

/// The SHA-256 digest of a sequence of bytes.
pub uninterp spec fn sha256_of(data: Seq<u8>) -> Seq<u8>;

/// `sha2::Sha256::digest`: the SHA-256 digest of `data`, which is 32
/// bytes long. The digest itself is only named.
#[verifier::external_body]
pub(crate) fn sha256(data: &[u8]) -> (digest: Vec<u8>)
    ensures
        digest@ == sha256_of(data@),
        digest@.len() == 32,
{
    Sha256::digest(data).to_vec()
}

/// The lower-case hexadecimal digit for a value below sixteen.
pub open spec fn hex_digit(n: int) -> char {
    if n < 10 {
        digit_char(n)
    } else if n == 10 {
        'a'
    } else if n == 11 {
        'b'
    } else if n == 12 {
        'c'
    } else if n == 13 {
        'd'
    } else if n == 14 {
        'e'
    } else {
        'f'
    }
}

/// The lower-case hexadecimal text of `bytes`: two digits for each byte,
/// the high half first.
pub open spec fn hex_lower(bytes: Seq<u8>) -> Seq<char> {
    Seq::new(
        2 * bytes.len(),
        |i: int|
            if i % 2 == 0 {
                hex_digit(bytes[i / 2] as int / 16)
            } else {
                hex_digit(bytes[i / 2] as int % 16)
            },
    )
}

/// `hex::encode`: each byte becomes two lower-case hexadecimal digits,
/// the high half first.
#[verifier::external_body]
pub(crate) fn hex_encode(bytes: &[u8]) -> (text: String)
    ensures
        text@ == hex_lower(bytes@),
{
    hex::encode(bytes)
}

/// The cache key of a source path: the first sixteen hexadecimal digits of
/// the SHA-256 digest of the path's UTF-8 bytes.
pub open spec fn cache_key(path: Seq<char>) -> Seq<char> {
    hex_lower(sha256_of(encode_utf8(path))).take(16)
}

/// The name of the cache file for a source path and a size: the cache
/// key, an underscore, the size in decimal, and `.jpg`.
pub open spec fn thumbnail_name(path: Seq<char>, size: u32) -> Seq<char> {
    cache_key(path) + "_"@ + decimal_digits(size as nat) + ".jpg"@
}

/// The name of the cache file that holds the rendition of `file_path` at
/// `size`.
pub fn thumbnail_file_name(file_path: &str, size: u32) -> (name: String)
    ensures
        name@ == thumbnail_name(file_path@, size),
{
    let digest = sha256(file_path.as_bytes());
    let hex = hex_encode(digest.as_slice());
    let mut name = String::from_str(hex.as_str().substring_char(0, 16));
    assert(name@ =~= cache_key(file_path@));
    name.append("_");
    name.append(decimal_string(size as u64).as_str());
    name.append(".jpg");
    name
}

/// The cache file names of a batch of source paths at one size, in the
/// order of the paths.
pub open spec fn thumbnail_names(paths: Seq<Seq<char>>, size: u32) -> Seq<Seq<char>> {
    Seq::new(paths.len(), |i: int| thumbnail_name(paths[i], size))
}

/// The cache files to delete when the files at `paths` leave the catalog:
/// one name for each path, in order.
pub fn remove_thumbnails_for_paths(paths: &Vec<String>, size: u32) -> (names: Vec<String>)
    ensures
        texts(names@) == thumbnail_names(texts(paths@), size),
{
    let mut names: Vec<String> = Vec::new();
    let mut i: usize = 0;
    while i < paths.len()
        invariant
            i <= paths.len(),
            names.len() == i,
            forall|k: int|
                0 <= k < i ==> (#[trigger] names@[k])@ == thumbnail_name(paths@[k]@, size),
        decreases paths.len() - i,
    {
        names.push(thumbnail_file_name(paths[i].as_str(), size));
        i = i + 1;
    }
    assert(texts(names@) =~= thumbnail_names(texts(paths@), size));
    names
}

/// What a look into the cache found for one request.
#[derive(Debug, Clone, Copy, PartialEq, Eq, Structural)]
pub struct CacheProbe {
    /// Whether a file stands at the cache path.
    pub exists: bool,
    /// The source's modification time, where it could be read.
    pub source_modified: Option<Timestamp>,
    /// The cache file's modification time, where it could be read.
    pub cached_modified: Option<Timestamp>,
}

/// What to do with a request for a thumbnail.
#[derive(Debug, Clone, Copy, PartialEq, Eq, Structural)]
pub enum ThumbnailAction {
    /// The cached rendition is fresh: hand out its path and do no work.
    Reuse,
    /// Decode, resize and encode the source, overwriting what is there.
    Regenerate,
}

/// A thumbnail could not be made or found: the source could not be
/// decoded, or the cache could not be written.
#[derive(Debug, Clone, Copy, PartialEq, Eq, Structural)]
pub struct ThumbnailFailure;

/// Whether the cache holds a rendition that is at least as new as its
/// source.
pub open spec fn fresh(probe: CacheProbe) -> bool {
    &&& probe.exists
    &&& probe.source_modified is Some
    &&& probe.cached_modified is Some
    &&& !earlier(probe.cached_modified->0, probe.source_modified->0)
}

/// Decides between a cache hit and regeneration. A rendition is reused
/// only if it exists, both modification times could be read, and it is
/// not older than its source.
pub fn thumbnail_action(probe: CacheProbe) -> (action: ThumbnailAction)
    ensures
        action == ThumbnailAction::Reuse <==> fresh(probe),
{
    if !probe.exists {
        return ThumbnailAction::Regenerate;
    }
    match (probe.source_modified, probe.cached_modified) {
        (Some(source), Some(cached)) => {
            if is_earlier(cached, source) {
                ThumbnailAction::Regenerate
            } else {
                ThumbnailAction::Reuse
            }
        },
        _ => ThumbnailAction::Regenerate,
    }
}

/// Asking twice is rendering once. Two requests for the same source at
/// the same size are answered under the same cache name; and a rendition
/// that was written at or after the source's modification time is reused
/// by the next request, as long as the source does not change.
pub proof fn lemma_second_request_hits(
    path: Seq<char>,
    size: u32,
    first: Seq<char>,
    second: Seq<char>,
    source: Timestamp,
    written: Timestamp,
)
    requires
        first == thumbnail_name(path, size),
        second == thumbnail_name(path, size),
        !earlier(written, source),
    ensures
        first == second,
        fresh(
            CacheProbe {
                exists: true,
                source_modified: Some(source),
                cached_modified: Some(written),
            },
        ),
{
}

} // verus!
