//! Locating the block device backing the root subvolume.
//!
//! The live mount table is scanned for the first line whose options
//! name the root subvolume; that line's first whitespace-separated
//! field is the device. Reading the table is the caller's side;
//! deciding what it says happens here.

use vstd::prelude::*;

use crate::metadata::is_space_char;
use crate::strutil::chars_of;

verus! {

broadcast use vstd::std_specs::vec::axiom_spec_len;

/// The end of the line starting at or containing position `i`: the
/// first line break at or after it, or the end of the text.
pub open spec fn line_end(s: Seq<char>, i: int) -> int
    decreases s.len() - i,
{
    if 0 <= i < s.len() && s[i] != '\n' {
        line_end(s, i + 1)
    } else {
        i
    }
}

pub proof fn lemma_line_end_bounds(s: Seq<char>, i: int)
    requires
        0 <= i <= s.len(),
    ensures
        i <= line_end(s, i) <= s.len(),
    decreases s.len() - i,
{
    if i < s.len() && s[i] != '\n' {
        lemma_line_end_bounds(s, i + 1);
    }
}

/// The first position at or after `i`, within `e`, that is not blank
/// space.
pub open spec fn skip_spaces(s: Seq<char>, i: int, e: int) -> int
    decreases e - i,
{
    if 0 <= i < e && i < s.len() && is_space_char(s[i]) {
        skip_spaces(s, i + 1, e)
    } else {
        i
    }
}

/// The end of the token starting at `i`: the first blank space before
/// `e`, or `e`.
pub open spec fn token_end(s: Seq<char>, i: int, e: int) -> int
    decreases e - i,
{
    if 0 <= i < e && i < s.len() && !is_space_char(s[i]) {
        token_end(s, i + 1, e)
    } else {
        i
    }
}

/// The option text that marks the root subvolume's mount entry.
pub open spec fn root_marker() -> Seq<char> {
    "subvol=/@root"@
}

/// Whether the slice from `a` to `e` carries the marker somewhere.
pub open spec fn line_has_marker(s: Seq<char>, a: int, e: int) -> bool {
    exists|k: int|
        a <= k && k + root_marker().len() <= e <= s.len() && #[trigger] s.subrange(
            k,
            k + root_marker().len() as int,
        ) == root_marker()
}

/// The first whitespace-separated field of the line from `a` to `e`,
/// if the line has one.
pub open spec fn first_field(s: Seq<char>, a: int, e: int) -> Option<Seq<char>> {
    let t0 = skip_spaces(s, a, e);
    if t0 >= e {
        None
    } else {
        Some(s.subrange(t0, token_end(s, t0, e)))
    }
}

/// What the mount table says the root device is: the first field of
/// the first line that carries the marker; nothing when no line does,
/// and nothing when that line has no field.
pub open spec fn spec_find_root_device(s: Seq<char>, i: int) -> Option<Seq<char>>
    decreases s.len() - i,
    via spec_find_root_device_dec
{
    if 0 <= i <= s.len() {
        let e = line_end(s, i);
        if line_has_marker(s, i, e) {
            first_field(s, i, e)
        } else if e < s.len() {
            spec_find_root_device(s, e + 1)
        } else {
            None
        }
    } else {
        None
    }
}

#[via_fn]
proof fn spec_find_root_device_dec(s: Seq<char>, i: int) {
    if 0 <= i <= s.len() {
        lemma_line_end_bounds(s, i);
    }
}

fn line_end_exec(v: &Vec<char>, i: usize) -> (r: usize)
    requires
        i <= v@.len(),
    ensures
        r as int == line_end(v@, i as int),
        i <= r <= v@.len(),
{
    let n = v.len();
    let mut j = i;
    while j < n && v[j] != '\n'
        invariant
            i <= j <= n,
            n == v@.len(),
            line_end(v@, i as int) == line_end(v@, j as int),
        decreases n - j,
    {
        j = j + 1;
    }
    j
}

fn skip_spaces_exec(v: &Vec<char>, i: usize, e: usize) -> (r: usize)
    requires
        i <= e <= v@.len(),
    ensures
        r as int == skip_spaces(v@, i as int, e as int),
        i <= r <= e,
{
    let mut j = i;
    while j < e && crate::metadata::is_space_char_exec(v[j])
        invariant
            i <= j <= e <= v@.len(),
            skip_spaces(v@, i as int, e as int) == skip_spaces(v@, j as int, e as int),
        decreases e - j,
    {
        j = j + 1;
    }
    j
}

fn token_end_exec(v: &Vec<char>, i: usize, e: usize) -> (r: usize)
    requires
        i <= e <= v@.len(),
    ensures
        r as int == token_end(v@, i as int, e as int),
        i <= r <= e,
{
    let mut j = i;
    while j < e && !crate::metadata::is_space_char_exec(v[j])
        invariant
            i <= j <= e <= v@.len(),
            token_end(v@, i as int, e as int) == token_end(v@, j as int, e as int),
        decreases e - j,
    {
        j = j + 1;
    }
    j
}

/// Whether the marker occurs at position `k`.
fn marker_at(v: &Vec<char>, pat: &Vec<char>, k: usize, e: usize) -> (r: bool)
    requires
        pat@ == root_marker(),
        pat@.len() == 13,
        k <= e <= v@.len(),
    ensures
        r <==> (k + 13 <= e && v@.subrange(k as int, k as int + 13) == root_marker()),
{
    if e - k < 13 {
        return false;
    }
    let mut t: usize = 0;
    while t < 13
        invariant
            t <= 13,
            pat@ == root_marker(),
            pat@.len() == 13,
            k + 13 <= e <= v@.len(),
            forall|j: int| 0 <= j < t ==> v@[k + j] == pat@[j],
        decreases 13 - t,
    {
        if v[k + t] != pat[t] {
            proof {
                let sub = v@.subrange(k as int, k as int + 13);
                if sub == root_marker() {
                    assert(sub[t as int] == v@[k + t]);
                }
            }
            return false;
        }
        t = t + 1;
    }
    proof {
        assert(v@.subrange(k as int, k as int + 13) =~= pat@);
    }
    true
}

fn line_has_marker_exec(v: &Vec<char>, pat: &Vec<char>, a: usize, e: usize) -> (r: bool)
    requires
        pat@ == root_marker(),
        pat@.len() == 13,
        a <= e <= v@.len(),
    ensures
        r == line_has_marker(v@, a as int, e as int),
{
    let mut k = a;
    while k < e
        invariant
            a <= k <= e <= v@.len(),
            pat@ == root_marker(),
            pat@.len() == 13,
            forall|j: int|
                a <= j < k ==> !(j + 13 <= e && #[trigger] v@.subrange(j, j + 13)
                    == root_marker()),
        decreases e - k,
    {
        if marker_at(v, pat, k, e) {
            return true;
        }
        k = k + 1;
    }
    false
}

fn scan_from(mounts: &str, v: &Vec<char>, pat: &Vec<char>, i: usize) -> (r: Option<String>)
    requires
        v@ == mounts@,
        pat@ == root_marker(),
        pat@.len() == 13,
        i <= v@.len(),
    ensures
        match r {
            Some(d) => spec_find_root_device(mounts@, i as int) == Some(d@),
            None => spec_find_root_device(mounts@, i as int) is None,
        },
    decreases v@.len() - i,
{
    let e = line_end_exec(v, i);
    if line_has_marker_exec(v, pat, i, e) {
        let t0 = skip_spaces_exec(v, i, e);
        if t0 >= e {
            None
        } else {
            let te = token_end_exec(v, t0, e);
            let field = mounts.substring_char(t0, te);
            Some(field.to_owned())
        }
    } else if e < v.len() {
        scan_from(mounts, v, pat, e + 1)
    } else {
        None
    }
}

/// Reads the root device out of the mount table text: the first field
/// of the first line naming the root subvolume.
pub fn find_root_device_in_mounts(mounts: &str) -> (r: Option<String>)
    ensures
        match r {
            Some(d) => spec_find_root_device(mounts@, 0) == Some(d@),
            None => spec_find_root_device(mounts@, 0) is None,
        },
{
    let v = chars_of(mounts);
    let pat = chars_of("subvol=/@root");
    proof {
        reveal_strlit("subvol=/@root");
    }
    scan_from(mounts, &v, &pat, 0)
}

} // verus!
