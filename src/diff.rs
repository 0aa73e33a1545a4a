use vstd::prelude::*;

use crate::compare::{candidate_is_same, classify, FileMeta};
use crate::diff_tag::DiffTag;
use crate::path_order::{
    compare_paths, lemma_path_lt_asymmetric, lemma_path_lt_irreflexive, lemma_path_lt_total, lemma_path_lt_transitive,
    path_lt,
};

verus! {

/// One side of a comparison: the metadata captured while walking, and the
/// root of the tree it came from.
#[derive(Debug)]
pub struct PathInfo {
    pub metadata: FileMeta,
    pub base: Vec<u8>,
}

impl PathInfo {
    pub fn new(metadata: FileMeta, base: Vec<u8>) -> (r: Self)
        ensures
            r.metadata == metadata,
            r.base@ == base@,
    {
        PathInfo { metadata, base }
    }

    /// The metadata captured for this path.
    pub fn metadata(&self) -> (r: &FileMeta)
        ensures
            *r == self.metadata,
    {
        &self.metadata
    }

    /// The root of the tree this path belongs to; the entry's relative path
    /// joined to it gives the path itself.
    pub fn base(&self) -> (r: &Vec<u8>)
        ensures
            r@ == self.base@,
    {
        &self.base
    }
}

/// A single entry of a diff, identified by its path relative to both roots,
/// as a sequence of path components.
#[derive(Debug)]
pub struct DiffEntry {
    pub relative: Vec<Vec<u8>>,
    pub tag: DiffTag,
    pub deleted: Option<PathInfo>,
    pub inserted: Option<PathInfo>,
}

/// The identity of an entry: its relative path.
pub open spec fn key(e: DiffEntry) -> Seq<Seq<u8>> {
    e.relative.deep_view()
}

impl DiffEntry {
    /// The sides that are present agree with the tag: a deletion has only the
    /// old side, an insertion only the new side, anything else both.
    pub open spec fn well_formed(&self) -> bool {
        match self.tag {
            DiffTag::Delete => self.deleted.is_some() && self.inserted.is_none(),
            DiffTag::Insert => self.deleted.is_none() && self.inserted.is_some(),
            _ => self.deleted.is_some() && self.inserted.is_some(),
        }
    }

    /// The entry is a directory, going by the new side when there is one.
    pub open spec fn is_dir_spec(&self) -> bool {
        match self.inserted {
            Some(info) => info.metadata.is_dir,
            None => match self.deleted {
                Some(info) => info.metadata.is_dir,
                None => false,
            },
        }
    }

    /// The path of this entry, relative to the old and new roots.
    pub fn relative(&self) -> (r: &Vec<Vec<u8>>)
        ensures
            r.deep_view() == key(*self),
    {
        &self.relative
    }

    /// Whether this path was removed, inserted, changed or left alone.
    pub fn tag(&self) -> (r: DiffTag)
        ensures
            r == self.tag,
    {
        self.tag
    }

    /// The old side, if any.
    pub fn deleted(&self) -> (r: Option<&PathInfo>)
        ensures
            r matches Some(i) ==> self.deleted == Some(*i),
            r is None <==> self.deleted is None,
    {
        match &self.deleted {
            Some(i) => Some(i),
            None => None,
        }
    }

    /// The new side, if any.
    pub fn inserted(&self) -> (r: Option<&PathInfo>)
        ensures
            r matches Some(i) ==> self.inserted == Some(*i),
            r is None <==> self.inserted is None,
    {
        match &self.inserted {
            Some(i) => Some(i),
            None => None,
        }
    }

    /// Whether this entry is a directory.
    pub fn is_dir(&self) -> (r: bool)
        ensures
            r == self.is_dir_spec(),
    {
        match &self.inserted {
            Some(info) => info.metadata.is_dir,
            None => match &self.deleted {
                Some(info) => info.metadata.is_dir,
                None => false,
            },
        }
    }
}

/// Some entry of `s` has relative path `k`.
pub open spec fn has_key(s: Seq<DiffEntry>, k: Seq<Seq<u8>>) -> bool {
    exists|i: int| 0 <= i < s.len() && key(s[i]) == k
}

/// Entries in strictly increasing order of relative path.
pub open spec fn sorted_by_path(s: Seq<DiffEntry>) -> bool {
    forall|i: int, j: int| 0 <= i < j < s.len() ==> path_lt(key(s[i]), key(s[j]))
}

/// `new` is `old` with `e` stored under its relative path: in place of the
/// entry with that path, or added where there was none.
pub open spec fn stored(old: Seq<DiffEntry>, new: Seq<DiffEntry>, e: DiffEntry) -> bool {
    (exists|i: int| 0 <= i < old.len() && key(old[i]) == key(e) && new == old.update(i, e)) || (
    !has_key(old, key(e)) && exists|i: int| 0 <= i <= old.len() && new == old.insert(i, e))
}

/// The entry that walking `relative` in the old tree records.
pub open spec fn removed_entry(
    relative: Vec<Vec<u8>>,
    deleted: PathInfo,
    inserted: Option<PathInfo>,
    same_contents: bool,
) -> DiffEntry {
    DiffEntry {
        relative,
        tag: classify(
            deleted.metadata,
            match inserted {
                Some(i) => Some(i.metadata),
                None => None,
            },
            same_contents,
        ),
        deleted: Some(deleted),
        inserted,
    }
}

/// The entry that walking `relative` in the new tree records when the old
/// tree had no such path.
pub open spec fn added_entry(relative: Vec<Vec<u8>>, inserted: PathInfo) -> DiffEntry {
    DiffEntry { relative, tag: DiffTag::Insert, deleted: None, inserted: Some(inserted) }
}

/// A diff of two trees: one entry per relative path, in path order.
#[derive(Debug)]
pub struct Diff {
    entries: Vec<DiffEntry>,
}

impl View for Diff {
    type V = Seq<DiffEntry>;

    closed spec fn view(&self) -> Seq<DiffEntry> {
        self.entries@
    }
}

impl Diff {
    /// Entries are ordered by path, so each path occurs once, and each entry
    /// is well formed.
    pub open spec fn wf(&self) -> bool {
        sorted_by_path(self@) && forall|i: int| 0 <= i < self@.len() ==> (#[trigger] self@[i]).well_formed()
    }

    /// An empty diff, before either tree is walked.
    pub fn new() -> (r: Self)
        ensures
            r.wf(),
            r@.len() == 0,
    {
        Diff { entries: Vec::new() }
    }

    /// Number of entries.
    pub fn len(&self) -> (r: usize)
        ensures
            r == self@.len(),
    {
        self.entries.len()
    }

    /// The entry at position `i` in path order.
    pub fn entry(&self, i: usize) -> (r: &DiffEntry)
        requires
            i < self@.len(),
        ensures
            *r == self@[i as int],
    {
        &self.entries[i]
    }

    /// The entries in path order.
    pub fn into_entries(self) -> (r: Vec<DiffEntry>)
        ensures
            r@ == self@,
    {
        self.entries
    }

    /// The entry for a relative path, if there is one.
    pub fn get(&self, relative: &Vec<Vec<u8>>) -> (r: Option<&DiffEntry>)
        ensures
            r is None <==> !has_key(self@, relative.deep_view()),
            r matches Some(e) ==> exists|i: int|
                0 <= i < self@.len() && key(self@[i]) == relative.deep_view() && *e == self@[i],
    {
        let mut i: usize = 0;
        while i < self.entries.len()
            invariant
                i <= self.entries@.len(),
                forall|j: int| 0 <= j < i ==> key(self.entries@[j]) != relative.deep_view(),
            decreases self.entries@.len() - i,
        {
            if compare_paths(&self.entries[i].relative, relative) == 0 {
                return Some(&self.entries[i]);
            }
            i = i + 1;
        }
        None
    }

    /// Stores `e` under its relative path, replacing and returning the entry
    /// that had that path before, if any.
    pub fn insert_overwrite(&mut self, e: DiffEntry) -> (r: Option<DiffEntry>)
        requires
            old(self).wf(),
            e.well_formed(),
        ensures
            final(self).wf(),
            stored(old(self)@, final(self)@, e),
            r is Some <==> has_key(old(self)@, key(e)),
            r matches Some(p) ==> exists|i: int|
                0 <= i < old(self)@.len() && key(old(self)@[i]) == key(e) && p == old(self)@[i],
    {
        let ghost s = self.entries@;
        let ghost k = key(e);
        let mut i: usize = 0;
        let mut done = false;
        let mut c: i8 = 1;
        while !done && i < self.entries.len()
            invariant
                self.entries@ == s,
                k == key(e),
                i <= s.len(),
                forall|j: int| 0 <= j < i ==> path_lt(#[trigger] key(s[j]), k),
                done ==> i < s.len() && !path_lt(key(s[i as int]), k),
                done ==> (c == 0 <==> key(s[i as int]) == k),
            decreases s.len() - i + (if done { 0int } else { 1int }),
        {
            c = compare_paths(&self.entries[i].relative, &e.relative);
            if c >= 0 {
                proof {
                    lemma_path_lt_irreflexive(k);
                    if c > 0 {
                        lemma_path_lt_asymmetric(k, key(s[i as int]));
                    }
                }
                done = true;
            } else {
                assert(path_lt(key(s[i as int]), k));
                i = i + 1;
            }
        }
        proof {
            assert forall|j: int| 0 <= j < i implies key(#[trigger] s[j]) != k by {
                lemma_path_lt_irreflexive(k);
            }
        }
        if done && c == 0 {
            let prev = self.entries.remove(i);
            self.entries.insert(i, e);
            proof {
                assert(self.entries@ =~= s.update(i as int, e));
                assert forall|a: int, b: int| 0 <= a < b < self.entries@.len() implies path_lt(
                    key(self.entries@[a]),
                    key(self.entries@[b]),
                ) by {
                    assert(key(self.entries@[a]) == key(s[a]));
                    assert(key(self.entries@[b]) == key(s[b]));
                }
            }
            Some(prev)
        } else {
            self.entries.insert(i, e);
            proof {
                let n = self.entries@;
                assert(n =~= s.insert(i as int, e));
                // every entry from position i on comes after k
                assert forall|j: int| i <= j < s.len() implies path_lt(k, #[trigger] key(s[j])) by {
                    lemma_path_lt_total(key(s[i as int]), k);
                    if j > i {
                        lemma_path_lt_transitive(k, key(s[i as int]), key(s[j]));
                    }
                }
                assert forall|j: int| i <= j < s.len() implies key(#[trigger] s[j]) != k by {
                    lemma_path_lt_irreflexive(k);
                }
                assert(!has_key(s, k));
                assert forall|a: int, b: int| 0 <= a < b < n.len() implies path_lt(
                    key(n[a]),
                    key(n[b]),
                ) by {
                    if b < i {
                    } else if b == i {
                    } else if a < i {
                        lemma_path_lt_transitive(key(s[a]), k, key(s[b - 1]));
                    } else if a == i {
                    } else {
                        assert(n[a] == s[a - 1]);
                        assert(n[b] == s[b - 1]);
                    }
                }
            }
            None
        }
    }

    /// Records a path walked in the old tree: `deleted` is its metadata,
    /// `inserted` that of the same relative path under the new root, if it
    /// exists there, and `same_contents` whether the two files hash alike
    /// (read only when `needs_contents` holds of the two). Returns whether the
    /// walk should descend into the path: not into a directory that is gone
    /// from the new tree.
    pub fn record_removed(
        &mut self,
        relative: Vec<Vec<u8>>,
        deleted: PathInfo,
        inserted: Option<PathInfo>,
        same_contents: bool,
    ) -> (descend: bool)
        requires
            old(self).wf(),
        ensures
            final(self).wf(),
            stored(old(self)@, final(self)@, removed_entry(relative, deleted, inserted, same_contents)),
            descend == !(deleted.metadata.is_dir && inserted is None),
    {
        let tag = match &inserted {
            Some(info) => candidate_is_same(&deleted.metadata, &info.metadata, same_contents),
            None => DiffTag::Delete,
        };
        let descend = !(deleted.metadata.is_dir && matches!(tag, DiffTag::Delete));
        let ghost e = removed_entry(relative, deleted, inserted, same_contents);
        let entry = DiffEntry { relative, tag, deleted: Some(deleted), inserted };
        assert(entry == e);
        let _ = self.insert_overwrite(entry);
        descend
    }

    /// Records a path walked in the new tree. A path that the old tree's walk
    /// recorded is left as it is, and the walk descends into it unless it
    /// was deleted. Any other path is recorded as inserted, and the walk does
    /// not descend into it: an inserted directory stands for its contents.
    pub fn record_added(&mut self, relative: Vec<Vec<u8>>, inserted: PathInfo) -> (descend: bool)
        requires
            old(self).wf(),
        ensures
            final(self).wf(),
            has_key(old(self)@, relative.deep_view()) ==> final(self)@ == old(self)@ && (descend
                <==> exists|i: int|
                0 <= i < old(self)@.len() && key(old(self)@[i]) == relative.deep_view()
                    && old(self)@[i].tag != DiffTag::Delete),
            !has_key(old(self)@, relative.deep_view()) ==> stored(
                old(self)@,
                final(self)@,
                added_entry(relative, inserted),
            ) && descend == !inserted.metadata.is_dir,
    {
        match self.get(&relative) {
            Some(entry) => {
                proof {
                    assert forall|i: int|
                        0 <= i < self@.len() && key(self@[i]) == relative.deep_view() implies self@[i]
                        == *entry by {
                        let j = choose|j: int|
                            0 <= j < self@.len() && key(self@[j]) == relative.deep_view() && *entry
                                == self@[j];
                        if i < j {
                            lemma_path_lt_irreflexive(key(self@[i]));
                        } else if j < i {
                            lemma_path_lt_irreflexive(key(self@[j]));
                        }
                    }
                }
                !matches!(entry.tag, DiffTag::Delete)
            },
            None => {
                let descend = !inserted.metadata.is_dir;
                let ghost e = added_entry(relative, inserted);
                let entry = DiffEntry {
                    relative,
                    tag: DiffTag::Insert,
                    deleted: None,
                    inserted: Some(inserted),
                };
                assert(entry == e);
                let _ = self.insert_overwrite(entry);
                descend
            },
        }
    }
}

/// No two entries of a diff have the same relative path.
pub proof fn lemma_paths_unique(d: Diff)
    requires
        d.wf(),
    ensures
        forall|i: int, j: int|
            0 <= i < d@.len() && 0 <= j < d@.len() && i != j ==> key(d@[i]) != key(d@[j]),
{
    assert forall|i: int, j: int|
        0 <= i < d@.len() && 0 <= j < d@.len() && i != j implies key(d@[i]) != key(d@[j]) by {
        lemma_path_lt_irreflexive(key(d@[i]));
    }
}

/// Once an entry is stored in a diff ordered by path, the diff holds exactly
/// one entry with its relative path: that entry.
pub proof fn lemma_stored_once(old: Seq<DiffEntry>, new: Seq<DiffEntry>, e: DiffEntry)
    requires
        sorted_by_path(new),
        stored(old, new, e),
    ensures
        exists|i: int| 0 <= i < new.len() && new[i] == e,
        forall|j: int| 0 <= j < new.len() && key(#[trigger] new[j]) == key(e) ==> new[j] == e,
{
    let i = if exists|i: int|
        0 <= i < old.len() && key(old[i]) == key(e) && new == old.update(i, e) {
        choose|i: int| 0 <= i < old.len() && key(old[i]) == key(e) && new == old.update(i, e)
    } else {
        choose|i: int| 0 <= i <= old.len() && new == old.insert(i, e)
    };
    assert(new[i] == e);
    assert forall|j: int| 0 <= j < new.len() && key(#[trigger] new[j]) == key(e) implies new[j]
        == e by {
        if j != i {
            lemma_path_lt_irreflexive(key(e));
        }
    }
}

/// Two sequences sorted by path that hold the same entries are the same
/// sequence.
pub proof fn lemma_sorted_equal(a: Seq<DiffEntry>, b: Seq<DiffEntry>)
    requires
        sorted_by_path(a),
        sorted_by_path(b),
        forall|e: DiffEntry| a.contains(e) <==> b.contains(e),
    ensures
        a == b,
    decreases a.len(),
{
    if a.len() == 0 {
        if b.len() > 0 {
            assert(b.contains(b[0]));
        }
        assert(a =~= b);
    } else {
        assert(a.contains(a[0]));
        let j = choose|j: int| 0 <= j < b.len() && b[j] == a[0];
        assert(b.contains(b[0]));
        let k = choose|k: int| 0 <= k < a.len() && a[k] == b[0];
        if j > 0 {
            if k > 0 {
                lemma_path_lt_transitive(key(b[0]), key(b[j]), key(a[k]));
            }
            lemma_path_lt_irreflexive(key(b[0]));
        }
        assert(b[0] == a[0]);
        let ta = a.drop_first();
        let tb = b.drop_first();
        assert forall|e: DiffEntry| ta.contains(e) <==> tb.contains(e) by {
            if ta.contains(e) {
                let x = choose|x: int| 0 <= x < ta.len() && ta[x] == e;
                assert(a[x + 1] == e);
                assert(b.contains(e));
                let y = choose|y: int| 0 <= y < b.len() && b[y] == e;
                if y == 0 {
                    lemma_path_lt_irreflexive(key(a[0]));
                }
                assert(tb[y - 1] == e);
            }
            if tb.contains(e) {
                let x = choose|x: int| 0 <= x < tb.len() && tb[x] == e;
                assert(b[x + 1] == e);
                assert(a.contains(e));
                let y = choose|y: int| 0 <= y < a.len() && a[y] == e;
                if y == 0 {
                    lemma_path_lt_irreflexive(key(b[0]));
                }
                assert(ta[y - 1] == e);
            }
        }
        lemma_sorted_equal(ta, tb);
        assert(a =~= seq![a[0]] + ta);
        assert(b =~= seq![b[0]] + tb);
    }
}

/// The order of a diff's entries is fixed by their paths alone: two diffs
/// with the same entries list them in the same order, whatever order the
/// walks recorded them in.
pub proof fn lemma_order_independent(a: Diff, b: Diff)
    requires
        a.wf(),
        b.wf(),
        forall|e: DiffEntry| a@.contains(e) <==> b@.contains(e),
    ensures
        a@ == b@,
{
    lemma_sorted_equal(a@, b@);
}

} // verus!
