use vstd::prelude::*;

use crate::diff_tag::DiffTag;
use crate::path_order::compare_bytes;

verus! {

/// What the comparison reads of a file system entry's metadata.
#[derive(Debug, Clone, Copy, PartialEq, Eq, Structural)]
pub struct FileMeta {
    /// Device the entry lives on.
    pub dev: u64,
    /// Inode number of the entry on its device.
    pub ino: u64,
    /// Whether the entry is a directory.
    pub is_dir: bool,
    /// Length in bytes.
    pub len: u64,
}

/// Both entries are one file system object (same device and inode).
pub open spec fn same_object(a: FileMeta, b: FileMeta) -> bool {
    a.dev == b.dev && a.ino == b.ino
}

/// Metadata alone cannot settle the comparison: two distinct regular files of
/// equal length, whose contents must be compared.
pub open spec fn contents_needed(old: FileMeta, new: FileMeta) -> bool {
    !same_object(old, new) && !old.is_dir && !new.is_dir && old.len == new.len
}

/// The tag of a path of the old tree, given the metadata of the same relative
/// path under the new root (`None` when it does not exist there) and whether
/// the two files' contents are the same. The contents are consulted only when
/// the metadata does not decide.
pub open spec fn classify(old: FileMeta, candidate: Option<FileMeta>, same_contents: bool) -> DiffTag {
    match candidate {
        None => DiffTag::Delete,
        Some(new) => if same_object(old, new) {
            DiffTag::Equal
        } else if old.is_dir || new.is_dir || old.len != new.len {
            DiffTag::Replace
        } else if same_contents {
            DiffTag::Equal
        } else {
            DiffTag::Replace
        },
    }
}

/// Whether the contents of the two files have to be read to compare them.
pub fn needs_contents(old: &FileMeta, new: &FileMeta) -> (r: bool)
    ensures
        r == contents_needed(*old, *new),
{
    !(old.dev == new.dev && old.ino == new.ino) && !old.is_dir && !new.is_dir && old.len == new.len
}

/// The tag of a path that exists in both trees. `same_contents` is read only
/// when `needs_contents` holds of the two metadata.
pub fn candidate_is_same(old: &FileMeta, new: &FileMeta, same_contents: bool) -> (r: DiffTag)
    ensures
        r == classify(*old, Some(*new), same_contents),
        r == DiffTag::Equal || r == DiffTag::Replace,
{
    if old.dev == new.dev && old.ino == new.ino {
        DiffTag::Equal
    } else if old.is_dir || new.is_dir || old.len != new.len {
        DiffTag::Replace
    } else if same_contents {
        DiffTag::Equal
    } else {
        DiffTag::Replace
    }
}

/// The BLAKE3 digest of a byte string.
pub uninterp spec fn blake3_digest(bytes: Seq<u8>) -> Seq<u8>;

/// Relies on blake3::hash: the 32-byte digest of the whole input, a function of
/// the bytes alone.
#[verifier::external_body]
fn blake3_hash(bytes: &Vec<u8>) -> (r: Vec<u8>)
    ensures
        r@ == blake3_digest(bytes@),
        r@.len() == 32,
{
    blake3::hash(bytes.as_slice()).as_bytes().to_vec()
}

/// Whether two digests are the same.
pub fn digests_match(a: &Vec<u8>, b: &Vec<u8>) -> (r: bool)
    ensures
        r == (a@ == b@),
{
    compare_bytes(a, b) == 0
}

/// Whether two files' contents hash to the same BLAKE3 digest.
pub fn same_contents(old_bytes: &Vec<u8>, new_bytes: &Vec<u8>) -> (r: bool)
    ensures
        r == (blake3_digest(old_bytes@) == blake3_digest(new_bytes@)),
{
    let old_digest = blake3_hash(old_bytes);
    let new_digest = blake3_hash(new_bytes);
    digests_match(&old_digest, &new_digest)
}

/// Two paths that are one file system object (a hard link, or one entry
/// reached twice) compare equal whatever their contents, and the contents are
/// never read.
pub proof fn lemma_same_object_is_equal(old: FileMeta, new: FileMeta, same_contents: bool)
    requires
        same_object(old, new),
    ensures
        !contents_needed(old, new),
        classify(old, Some(new), same_contents) == DiffTag::Equal,
{
}

/// Two distinct regular files with the same bytes compare equal.
pub proof fn lemma_identical_files_are_equal(old: FileMeta, new: FileMeta, bytes: Seq<u8>)
    requires
        !old.is_dir,
        !new.is_dir,
        old.len == new.len,
    ensures
        classify(old, Some(new), blake3_digest(bytes) == blake3_digest(bytes)) == DiffTag::Equal,
{
}

/// Two distinct regular files whose contents hash differently compare as
/// replaced, whether or not their lengths match.
pub proof fn lemma_different_digests_are_replaced(
    old: FileMeta,
    new: FileMeta,
    old_bytes: Seq<u8>,
    new_bytes: Seq<u8>,
)
    requires
        !same_object(old, new),
        !old.is_dir,
        !new.is_dir,
        blake3_digest(old_bytes) != blake3_digest(new_bytes),
    ensures
        classify(old, Some(new), blake3_digest(old_bytes) == blake3_digest(new_bytes))
            == DiffTag::Replace,
{
}

/// A path of the old tree with no counterpart in the new tree is deleted.
pub proof fn lemma_missing_counterpart_is_deleted(old: FileMeta, same_contents: bool)
    ensures
        classify(old, None, same_contents) == DiffTag::Delete,
{
}

} // verus!
