//! Choosing which subvolumes a snapshot captures.
//!
//! An explicit request wins over the configured allow-list, which wins
//! over the computed exclusion rule: every enumerated subvolume is
//! taken unless it is, or lies under, the snapshot-storage path or an
//! entry of the exclusion list.

use vstd::prelude::*;

use crate::strutil::chars_of;

verus! {

broadcast use vstd::std_specs::vec::axiom_spec_len;

/// Whether `path` is `prefix` itself or lies under it. The empty
/// prefix covers every path; prefixes are written without a trailing
/// separator.
pub open spec fn is_path_prefix(prefix: Seq<char>, path: Seq<char>) -> bool {
    ||| prefix.len() == 0
    ||| path == prefix
    ||| (path.len() > prefix.len() && path.subrange(0, prefix.len() as int) == prefix && path[prefix.len() as int]
        == '/')
}

pub fn is_path_prefix_exec(prefix: &str, path: &str) -> (r: bool)
    ensures
        r == is_path_prefix(prefix@, path@),
{
    let p = chars_of(prefix);
    let q = chars_of(path);
    if p.len() == 0 {
        return true;
    }
    if q.len() < p.len() {
        proof {
            assert(!(q@ == p@));
        }
        return false;
    }
    let mut i: usize = 0;
    while i < p.len()
        invariant
            i <= p@.len() <= q@.len(),
            p@ == prefix@,
            q@ == path@,
            forall|k: int| 0 <= k < i ==> p@[k] == q@[k],
        decreases p@.len() - i,
    {
        if p[i] != q[i] {
            proof {
                assert(!(q@ == p@));
                assert(q@.len() >= p@.len());
                if q@.len() > p@.len() && q@.subrange(0, p@.len() as int) == p@ {
                    assert(q@.subrange(0, p@.len() as int)[i as int] == q@[i as int]);
                }
            }
            return false;
        }
        i = i + 1;
    }
    if q.len() == p.len() {
        proof {
            assert(q@ =~= p@);
        }
        true
    } else {
        proof {
            assert(q@.subrange(0, p@.len() as int) =~= p@);
            assert(!(q@ == p@));
        }
        let r = q[p.len()] == '/';
        r
    }
}

/// Whether the subvolume at `path` is kept out of a snapshot: it is,
/// or lies under, the snapshot-storage path or an entry of `exclude`.
pub open spec fn spec_excluded(
    path: Seq<char>,
    snapshot_path: Seq<char>,
    exclude: Seq<Seq<char>>,
) -> bool {
    ||| is_path_prefix(snapshot_path, path)
    ||| exists|j: int| 0 <= j < exclude.len() && is_path_prefix(#[trigger] exclude[j], path)
}

fn excluded_exec(path: &String, snapshot_path: &str, exclude: &Vec<String>) -> (r: bool)
    ensures
        r == spec_excluded(path@, snapshot_path@, exclude.deep_view()),
{
    if is_path_prefix_exec(snapshot_path, path.as_str()) {
        return true;
    }
    let mut j: usize = 0;
    while j < exclude.len()
        invariant
            j <= exclude@.len(),
            exclude.deep_view().len() == exclude@.len(),
            forall|k: int|
                0 <= k < j ==> !is_path_prefix(#[trigger] exclude.deep_view()[k], path@),
        decreases exclude@.len() - j,
    {
        if is_path_prefix_exec(exclude[j].as_str(), path.as_str()) {
            proof {
                assert(exclude.deep_view()[j as int] == exclude@[j as int]@);
            }
            return true;
        }
        proof {
            assert(exclude.deep_view()[j as int] == exclude@[j as int]@);
        }
        j = j + 1;
    }
    false
}

/// The subvolumes eligible for snapshotting among those enumerated
/// beneath the root, in enumeration order: everything not excluded by
/// the storage path or the exclusion list.
pub fn list_subvolumes_eligible_for_snapshotting(
    enumerated: &Vec<String>,
    snapshot_path: &str,
    exclude: &Vec<String>,
) -> (r: Vec<String>)
    ensures
        r.deep_view() == enumerated.deep_view().filter(
            |p: Seq<char>| !spec_excluded(p, snapshot_path@, exclude.deep_view()),
        ),
{
    let ghost pred = |p: Seq<char>| !spec_excluded(p, snapshot_path@, exclude.deep_view());
    let mut r: Vec<String> = Vec::new();
    let mut i: usize = 0;
    while i < enumerated.len()
        invariant
            i <= enumerated@.len(),
            enumerated.deep_view().len() == enumerated@.len(),
            pred == (|p: Seq<char>| !spec_excluded(p, snapshot_path@, exclude.deep_view())),
            r.deep_view() == enumerated.deep_view().subrange(0, i as int).filter(pred),
        decreases enumerated@.len() - i,
    {
        let ghost prefix = enumerated.deep_view().subrange(0, i as int);
        let ghost next = enumerated.deep_view().subrange(0, i as int + 1);
        if !excluded_exec(&enumerated[i], snapshot_path, exclude) {
            r.push(enumerated[i].clone());
        }
        i = i + 1;
        proof {
            assert(next.drop_last() =~= prefix);
            assert(next.last() == enumerated.deep_view()[i - 1]);
            assert(enumerated.deep_view()[i - 1] == enumerated@[i - 1]@);
            reveal(Seq::filter);
        }
    }
    proof {
        assert(enumerated.deep_view().subrange(0, enumerated@.len() as int) =~= enumerated.deep_view());
    }
    r
}

/// Whether resolving the captured set needs the subvolume tree to be
/// enumerated: only when neither an explicit request nor a configured
/// allow-list is present.
pub fn needs_enumeration(request: &Option<Vec<String>>, include_list: &Option<Vec<String>>) -> (r: bool)
    ensures
        r == (request is None && include_list is None),
{
    request.is_none() && include_list.is_none()
}

/// Resolves the set of subvolumes a snapshot captures, first present
/// wins: the explicit request, the configured allow-list, then the
/// computed eligible list.
pub fn resolve_subvolumes(
    request: Option<Vec<String>>,
    include_list: Option<Vec<String>>,
    computed: Vec<String>,
) -> (r: Vec<String>)
    ensures
        r == match request {
            Some(req) => req,
            None => match include_list {
                Some(inc) => inc,
                None => computed,
            },
        },
{
    match request {
        Some(req) => req,
        None => match include_list {
            Some(inc) => inc,
            None => computed,
        },
    }
}

} // verus!
