use vstd::prelude::*;

verus! {

/// Hashing a file to compare its contents failed.
#[derive(Debug)]
pub struct HashError {
    pub path: Vec<u8>,
    pub message: String,
}

impl HashError {
    /// The path that could not be hashed.
    pub fn path(&self) -> (r: &Vec<u8>)
        ensures
            r@ == self.path@,
    {
        &self.path
    }
}

/// Querying the metadata of the counterpart path under the other root failed.
#[derive(Debug)]
pub struct MetadataError {
    pub path: Vec<u8>,
    pub message: String,
}

impl MetadataError {
    /// The path whose metadata could not be read.
    pub fn path(&self) -> (r: &Vec<u8>)
        ensures
            r@ == self.path@,
    {
        &self.path
    }
}

/// A walked path did not start with the root it was walked from.
#[derive(Debug)]
pub struct StripPrefixError {
    pub path: Vec<Vec<u8>>,
    pub prefix: Vec<Vec<u8>>,
}

impl StripPrefixError {
    /// The path, as components.
    pub fn path(&self) -> (r: &Vec<Vec<u8>>)
        ensures
            r.deep_view() == self.path.deep_view(),
    {
        &self.path
    }

    /// The root that the path was expected to start with, as components.
    pub fn prefix(&self) -> (r: &Vec<Vec<u8>>)
        ensures
            r.deep_view() == self.prefix.deep_view(),
    {
        &self.prefix
    }
}

/// Walking one of the trees failed.
#[derive(Debug)]
pub struct TraverseError {
    pub path: Vec<u8>,
    pub message: String,
}

impl TraverseError {
    /// The root whose walk failed.
    pub fn path(&self) -> (r: &Vec<u8>)
        ensures
            r@ == self.path@,
    {
        &self.path
    }
}

/// Reading the metadata of a path met during a walk failed.
#[derive(Debug)]
pub struct WalkDirMetadataError {
    pub path: Vec<u8>,
    pub message: String,
}

impl WalkDirMetadataError {
    /// The path whose metadata could not be read.
    pub fn path(&self) -> (r: &Vec<u8>)
        ensures
            r@ == self.path@,
    {
        &self.path
    }
}

/// Any failure while diffing two trees; each stops the whole diff.
#[derive(Debug)]
pub enum Error {
    Traverse(TraverseError),
    Metadata(MetadataError),
    WalkDirMetadata(WalkDirMetadataError),
    Hash(HashError),
    StripPrefix(StripPrefixError),
}

} // verus!
