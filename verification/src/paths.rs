//! The on-disk and on-bus naming scheme.
//!
//! A snapshot's clones live in one directory named by its identity
//! under the snapshot-storage path; each clone is named by its
//! subvolume path flattened to a single file name; the metadata record
//! sits beside the directory. A published snapshot is addressed by an
//! object path ending in a decimal index.

use vstd::prelude::*;

use crate::id::SnapshotId;
use crate::id::spec_format_id;
use crate::strutil::chars_of;

verus! {

broadcast use vstd::std_specs::vec::axiom_spec_len;

/// A subvolume path flattened to a single file name: every separator
/// becomes a double underscore.
pub open spec fn spec_flat_name(s: Seq<char>) -> Seq<char>
    decreases s.len(),
{
    if s.len() == 0 {
        Seq::empty()
    } else {
        (if s[0] == '/' {
            seq!['_', '_']
        } else {
            seq![s[0]]
        }) + spec_flat_name(s.drop_first())
    }
}

pub proof fn lemma_flat_name_concat(a: Seq<char>, b: Seq<char>)
    ensures
        spec_flat_name(a + b) == spec_flat_name(a) + spec_flat_name(b),
    decreases a.len(),
{
    if a.len() == 0 {
        assert(a + b =~= b);
        assert(spec_flat_name(a) + spec_flat_name(b) =~= spec_flat_name(b));
    } else {
        lemma_flat_name_concat(a.drop_first(), b);
        assert((a + b).drop_first() =~= a.drop_first() + b);
        assert((a + b)[0] == a[0]);
        assert((a + b).len() > 0);
        assert(spec_flat_name(a + b) == (if a[0] == '/' {
            seq!['_', '_']
        } else {
            seq![a[0]]
        }) + (spec_flat_name(a.drop_first()) + spec_flat_name(b)));
        assert(spec_flat_name(a + b) =~= spec_flat_name(a) + spec_flat_name(b));
    }
}

/// Flattens a subvolume path to the file name of its clone.
pub fn flatten_subvolume_name(s: &str) -> (r: String)
    ensures
        r@ == spec_flat_name(s@),
{
    let v = chars_of(s);
    let mut out = String::new();
    let mut i: usize = 0;
    while i < v.len()
        invariant
            i <= v@.len(),
            v@ == s@,
            out@ == spec_flat_name(v@.subrange(0, i as int)),
        decreases v@.len() - i,
    {
        let ghost prefix = v@.subrange(0, i as int);
        let ghost one = seq![v@[i as int]];
        if v[i] == '/' {
            out.push('_');
            out.push('_');
        } else {
            out.push(v[i]);
        }
        i = i + 1;
        proof {
            lemma_flat_name_concat(prefix, one);
            reveal_with_fuel(spec_flat_name, 2);
            assert(v@.subrange(0, i as int) =~= prefix + one);
            assert(one.drop_first() =~= Seq::<char>::empty());
            assert(spec_flat_name(one) == (if one[0] == '/' {
                seq!['_', '_']
            } else {
                seq![one[0]]
            }) + Seq::<char>::empty());
            assert(out@ =~= spec_flat_name(prefix + one));
        }
    }
    proof {
        assert(v@.subrange(0, v@.len() as int) =~= v@);
    }
    out
}

/// The storage directory of the snapshot with identity `id`.
pub open spec fn spec_snapshot_dir(snapshot_path: Seq<char>, id: u128) -> Seq<char> {
    snapshot_path + seq!['/'] + spec_format_id(id)
}

/// The metadata file sitting beside that directory.
pub open spec fn spec_metadata_file(snapshot_path: Seq<char>, id: u128) -> Seq<char> {
    spec_snapshot_dir(snapshot_path, id) + ".snapshot.json"@
}

/// The path of the directory holding the clones of snapshot `id`.
pub fn snapshot_dir_path(snapshot_path: &str, id: &SnapshotId) -> (r: String)
    ensures
        r@ == spec_snapshot_dir(snapshot_path@, id.value),
{
    let mut r = String::from_str(snapshot_path);
    r.push('/');
    let ids = id.format();
    r.append(ids.as_str());
    proof {
        assert(r@ =~= spec_snapshot_dir(snapshot_path@, id.value));
    }
    r
}

/// The path of the metadata record of snapshot `id`.
pub fn metadata_file_path(snapshot_path: &str, id: &SnapshotId) -> (r: String)
    ensures
        r@ == spec_metadata_file(snapshot_path@, id.value),
{
    let mut r = snapshot_dir_path(snapshot_path, id);
    r.append(".snapshot.json");
    r
}

/// A metadata file is recognized by its fixed suffix.
pub open spec fn spec_is_metadata_filename(name: Seq<char>) -> bool {
    name.len() >= 14 && name.subrange(name.len() - 14, name.len() as int) == ".snapshot.json"@
}

/// Whether a directory entry name is a metadata record.
pub fn is_metadata_filename(name: &str) -> (r: bool)
    ensures
        r == spec_is_metadata_filename(name@),
{
    let suffix = chars_of(".snapshot.json");
    proof {
        reveal_strlit(".snapshot.json");
    }
    let v = chars_of(name);
    if v.len() < 14 {
        return false;
    }
    let base = v.len() - 14;
    let mut k: usize = 0;
    while k < 14
        invariant
            k <= 14,
            v@ == name@,
            suffix@ == ".snapshot.json"@,
            suffix@.len() == 14,
            v@.len() >= 14,
            v@.len() <= usize::MAX,
            base == v@.len() - 14,
            forall|j: int| 0 <= j < k ==> v@[base + j] == suffix@[j],
        decreases 14 - k,
    {
        if v[base + k] != suffix[k] {
            proof {
                let whole = name@.subrange(name@.len() - 14, name@.len() as int);
                if whole == ".snapshot.json"@ {
                    assert(whole[k as int] == v@[base + k]);
                }
            }
            return false;
        }
        k = k + 1;
    }
    proof {
        assert(name@.subrange(name@.len() - 14, name@.len() as int) =~= ".snapshot.json"@);
    }
    true
}

/// The decimal spelling of `v`, no leading zeros.
pub open spec fn spec_dec_digits(v: int) -> Seq<char>
    decreases v,
{
    if v < 10 {
        seq![crate::id::hex_char_of(if v < 0 {
            0
        } else {
            v
        })]
    } else {
        spec_dec_digits(v / 10).push(crate::id::hex_char_of(v % 10))
    }
}

fn dec_digits_exec(v: u64) -> (r: Vec<char>)
    ensures
        r@ == spec_dec_digits(v as int),
    decreases v,
{
    if v < 10 {
        let mut r: Vec<char> = Vec::new();
        r.push(crate::id::hex_char_exec((v % 16) as u8));
        proof {
            assert(v % 16 == v) by (nonlinear_arith)
                requires
                    v < 10,
            ;
            assert(r@ =~= spec_dec_digits(v as int));
        }
        r
    } else {
        let mut r = dec_digits_exec(v / 10);
        r.push(crate::id::hex_char_exec((v % 10) as u8));
        proof {
            assert(r@ =~= spec_dec_digits(v as int));
        }
        r
    }
}

/// The object path under which the snapshot with publication index `n`
/// is addressable.
pub open spec fn spec_object_path(n: int) -> Seq<char> {
    "/com/system76/PopSnapshot/Snapshot/"@ + spec_dec_digits(n)
}

/// The object path for publication index `n`.
pub fn object_path_for_index(n: u64) -> (r: String)
    ensures
        r@ == spec_object_path(n as int),
{
    let mut r = String::from_str("/com/system76/PopSnapshot/Snapshot/");
    let d = dec_digits_exec(n);
    let tail = crate::strutil::string_from_chars(&d);
    r.append(tail.as_str());
    r
}

} // verus!
