use vstd::prelude::*;

verus! {

/// How one relative path changed between the old and the new tree.
#[derive(Debug, Clone, Copy, PartialEq, Eq, Structural)]
pub enum DiffTag {
    /// The path is the same on both sides.
    Equal,
    /// The path exists in the old tree and not in the new one.
    Delete,
    /// The path exists in both trees, with different contents.
    Replace,
    /// The path exists in the new tree and not in the old one.
    Insert,
}

/// The character that starts a rendered line for an entry with this tag.
pub open spec fn marker_of(tag: DiffTag) -> char {
    match tag {
        DiffTag::Equal => ' ',
        DiffTag::Delete => '-',
        DiffTag::Replace => '~',
        DiffTag::Insert => '+',
    }
}

impl DiffTag {
    /// The character that starts a rendered line for this tag.
    pub fn marker(&self) -> (r: char)
        ensures
            r == marker_of(*self),
    {
        match self {
            DiffTag::Equal => ' ',
            DiffTag::Delete => '-',
            DiffTag::Replace => '~',
            DiffTag::Insert => '+',
        }
    }
}

} // verus!
