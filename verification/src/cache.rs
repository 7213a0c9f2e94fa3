//! A cache of image ids that are known by name.

use vstd::prelude::*;

use crate::discovery::option_view;
use crate::strmap::StrMap;
use crate::text;

verus! {

/// A cache entry for an image.
#[derive(Debug)]
pub struct ImageCacheEntry {
    /// The image ID (e.g., "im-abc123").
    pub image_id: String,
    /// SHA256 hash of the dockerfile contents (if applicable).
    pub dockerfile_hash: Option<String>,
    /// ISO 8601 timestamp when the entry was created.
    pub created_at: String,
    /// Type of image: "dockerfile" or "preset".
    pub image_type: String,
}

/// Cache for image IDs, to avoid rebuilding images that haven't changed.
#[derive(Debug)]
pub struct ImageCache {
    /// The entries, by cache key.
    pub entries: StrMap<ImageCacheEntry>,
}

/// An entry counts for a dockerfile only where it was made for the same
/// contents.
pub open spec fn made_for(entry: ImageCacheEntry, current_hash: Seq<char>) -> bool {
    option_view(entry.dockerfile_hash) == Some(current_hash)
}

impl Default for ImageCache {
    fn default() -> (r: Self)
        ensures
            r.entries.well_formed(),
            r.entries@ == Map::<Seq<char>, ImageCacheEntry>::empty(),
    {
        ImageCache { entries: StrMap::new() }
    }
}

impl ImageCache {
    /// The cache that was stored. Where none could be read it is empty.
    pub fn load(stored: Option<StrMap<ImageCacheEntry>>) -> (r: Self)
        ensures
            match stored {
                Some(entries) => r.entries == entries,
                None => r.entries@ == Map::<Seq<char>, ImageCacheEntry>::empty(),
            },
    {
        match stored {
            Some(entries) => ImageCache { entries },
            None => Self::default(),
        }
    }

    /// Gets a cache entry by key.
    pub fn get(&self, key: &str) -> (r: Option<&ImageCacheEntry>)
        ensures
            match r {
                Some(entry) => self.entries@.contains_key(key@) && *entry == self.entries@[key@],
                None => !self.entries@.contains_key(key@),
            },
    {
        self.entries.get(key)
    }

    /// Gets a cache entry for a dockerfile, only where its hash is the
    /// current one.
    pub fn get_for_dockerfile(&self, key: &str, current_hash: &str) -> (r: Option<&ImageCacheEntry>)
        ensures
            match r {
                Some(entry) => found_for_dockerfile(self.entries@, key@, current_hash@) == Some(
                    *entry,
                ),
                None => found_for_dockerfile(self.entries@, key@, current_hash@) is None,
            },
    {
        match self.entries.get(key) {
            Some(entry) => match &entry.dockerfile_hash {
                Some(hash) => if text::same(hash.as_str(), current_hash) {
                    Some(entry)
                } else {
                    None
                },
                None => None,
            },
            None => None,
        }
    }

    /// Inserts or updates a cache entry.
    pub fn insert(&mut self, key: String, entry: ImageCacheEntry)
        ensures
            final(self).entries@ == old(self).entries@.insert(key@, entry),
            old(self).entries.well_formed() ==> final(self).entries.well_formed(),
    {
        self.entries.insert(key, entry);
    }
}

/// What is found in a cache for a key and the current hash of a dockerfile.
pub open spec fn found_for_dockerfile(
    entries: Map<Seq<char>, ImageCacheEntry>,
    key: Seq<char>,
    current_hash: Seq<char>,
) -> Option<ImageCacheEntry> {
    if entries.contains_key(key) && made_for(entries[key], current_hash) {
        Some(entries[key])
    } else {
        None
    }
}

/// An entry that was inserted is found for the contents that it was made for
/// and for no others, whatever was there before, and other keys are as they
/// were.
pub proof fn inserted_entry_is_found(
    before: Map<Seq<char>, ImageCacheEntry>,
    key: Seq<char>,
    entry: ImageCacheEntry,
    other: Seq<char>,
    hash: Seq<char>,
)
    ensures
        found_for_dockerfile(before.insert(key, entry), key, hash) == (if made_for(entry, hash) {
            Some(entry)
        } else {
            None
        }),
        other != key ==> found_for_dockerfile(before.insert(key, entry), other, hash)
            == found_for_dockerfile(before, other, hash),
{
}

/// The SHA-256 digest of bytes as hexadecimal text, as `sha2::Sha256::digest`
/// computes it.
pub uninterp spec fn sha256_hex(bytes: Seq<u8>) -> Seq<char>;

/// A lower-case hexadecimal digit.
pub open spec fn is_hex(c: char) -> bool {
    ('0' <= c && c <= '9') || ('a' <= c && c <= 'f')
}

/// `sha2::Sha256::digest` computes a digest of thirty-two bytes, which
/// prints as two lower-case hexadecimal digits for each byte.
#[verifier::external_body]
fn digest(bytes: &Vec<u8>) -> (r: String)
    ensures
        r@ == sha256_hex(bytes@),
        r@.len() == 64,
        forall|i: int| 0 <= i < r@.len() ==> is_hex(#[trigger] r@[i]),
{
    format!("{:x}", <sha2::Sha256 as sha2::Digest>::digest(bytes))
}

/// The SHA256 hash of a file's contents as a lowercase hexadecimal string.
pub fn compute_hash(contents: &Vec<u8>) -> (r: String)
    ensures
        r@ == sha256_hex(contents@),
        r@.len() == 64,
        forall|i: int| 0 <= i < r@.len() ==> is_hex(#[trigger] r@[i]),
{
    digest(contents)
}

/// An entry is not found where it was made for other contents or for none
/// that are known; it is found, as it is, where its hash is the current one.
pub proof fn stale_entry_is_not_found(
    entries: Map<Seq<char>, ImageCacheEntry>,
    key: Seq<char>,
    current_hash: Seq<char>,
)
    ensures
        found_for_dockerfile(entries, key, current_hash) is Some <==> entries.contains_key(key) && (
        entries[key].dockerfile_hash matches Some(hash) && hash@ == current_hash),
        found_for_dockerfile(entries, key, current_hash) matches Some(entry) ==> entry
            == entries[key],
{
}

} // verus!
