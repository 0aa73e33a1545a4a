use vstd::prelude::*;

use crate::error::StripPrefixError;
use crate::path_order::compare_bytes;

verus! {

/// `prefix` is a leading run of whole components of `path`.
pub open spec fn has_prefix(path: Seq<Seq<u8>>, prefix: Seq<Seq<u8>>) -> bool {
    prefix.len() <= path.len() && path.subrange(0, prefix.len() as int) == prefix
}

/// A copy of a byte string.
pub fn copy_bytes(b: &Vec<u8>) -> (r: Vec<u8>)
    ensures
        r@ == b@,
{
    let mut r: Vec<u8> = Vec::new();
    let mut i: usize = 0;
    while i < b.len()
        invariant
            i <= b@.len(),
            r@ == b@.subrange(0, i as int),
        decreases b@.len() - i,
    {
        r.push(b[i]);
        assert(b@.subrange(0, i + 1) == b@.subrange(0, i as int).push(b@[i as int]));
        i = i + 1;
    }
    assert(b@.subrange(0, i as int) == b@);
    r
}

/// A copy of a path given as components.
pub fn copy_path(p: &Vec<Vec<u8>>) -> (r: Vec<Vec<u8>>)
    ensures
        r.deep_view() == p.deep_view(),
{
    let mut r: Vec<Vec<u8>> = Vec::new();
    let mut i: usize = 0;
    while i < p.len()
        invariant
            i <= p@.len(),
            r.deep_view() == p.deep_view().subrange(0, i as int),
        decreases p@.len() - i,
    {
        let c = copy_bytes(&p[i]);
        let ghost before = r.deep_view();
        let ghost rv = r@;
        r.push(c);
        assert(r@ == rv.push(c));
        assert(c.deep_view() =~= c@);
        assert(r.deep_view() =~= before.push(c@));
        assert(p.deep_view().subrange(0, i + 1) =~= p.deep_view().subrange(0, i as int).push(
            p.deep_view()[i as int],
        ));
        i = i + 1;
    }
    assert(p.deep_view().subrange(0, i as int) =~= p.deep_view());
    r
}

/// Removes the root `prefix` from a path found under it, component by
/// component. Fails when the path does not start with the root.
pub fn strip_prefix(path: Vec<Vec<u8>>, prefix: &Vec<Vec<u8>>) -> (r: Result<
    Vec<Vec<u8>>,
    StripPrefixError,
>)
    ensures
        r is Ok <==> has_prefix(path.deep_view(), prefix.deep_view()),
        r matches Ok(rest) ==> rest.deep_view() == path.deep_view().skip(prefix@.len() as int),
        r matches Err(e) ==> e.path.deep_view() == path.deep_view() && e.prefix.deep_view()
            == prefix.deep_view(),
{
    let ghost pv = path.deep_view();
    let ghost qv = prefix.deep_view();
    if prefix.len() > path.len() {
        return Err(StripPrefixError { path, prefix: copy_path(prefix) });
    }
    let mut i: usize = 0;
    while i < prefix.len()
        invariant
            prefix@.len() <= path@.len(),
            i <= prefix@.len(),
            pv == path.deep_view(),
            qv == prefix.deep_view(),
            pv.subrange(0, i as int) == qv.subrange(0, i as int),
        decreases prefix@.len() - i,
    {
        if compare_bytes(&path[i], &prefix[i]) != 0 {
            assert(pv[i as int] == path@[i as int]@);
            assert(qv[i as int] == prefix@[i as int]@);
            assert(pv.subrange(0, qv.len() as int)[i as int] == pv[i as int]);
            return Err(StripPrefixError { path, prefix: copy_path(prefix) });
        }
        assert(pv[i as int] =~= path@[i as int]@);
        assert(qv[i as int] =~= prefix@[i as int]@);
        assert(pv.subrange(0, i + 1) =~= pv.subrange(0, i as int).push(pv[i as int]));
        assert(qv.subrange(0, i + 1) =~= qv.subrange(0, i as int).push(qv[i as int]));
        i = i + 1;
    }
    assert(qv.subrange(0, i as int) =~= qv);
    let mut path = path;
    let rest = path.split_off(prefix.len());
    assert(rest.deep_view() =~= pv.skip(qv.len() as int));
    Ok(rest)
}

} // verus!
