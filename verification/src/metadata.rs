//! The persisted description of one snapshot.
//!
//! A record carries the snapshot's immutable identity, its creation
//! time in the fixed textual standard, the ordered list of captured
//! subvolume paths, and two optional human labels. Blank label input is
//! normalized to the unset state.

use vstd::prelude::*;

use crate::id::SnapshotId;
use crate::id::has_v4_layout;
use crate::strutil::chars_of;
use crate::timefmt::current_time_rfc3339;
use crate::timefmt::is_rfc3339;

verus! {

/// Whether `c` carries the White_Space property, the set the library
/// treats as blank space in label input.
pub open spec fn is_space_char(c: char) -> bool {
    ||| c == ' '
    ||| c == '\t'
    ||| c == '\n'
    ||| c == '\u{b}'
    ||| c == '\u{c}'
    ||| c == '\r'
    ||| c == '\u{85}'
    ||| c == '\u{a0}'
    ||| c == '\u{1680}'
    ||| ('\u{2000}' <= c && c <= '\u{200a}')
    ||| c == '\u{2028}'
    ||| c == '\u{2029}'
    ||| c == '\u{202f}'
    ||| c == '\u{205f}'
    ||| c == '\u{3000}'
}

/// A string of nothing but blank space (the empty string included).
pub open spec fn spec_is_blank(s: Seq<char>) -> bool {
    forall|i: int| 0 <= i < s.len() ==> is_space_char(#[trigger] s[i])
}

/// The view of an optional label.
pub open spec fn label_view(l: &Option<String>) -> Option<Seq<char>> {
    match l {
        Some(s) => Some(s@),
        None => None,
    }
}

/// Blank input clears a label; anything else is kept verbatim.
pub open spec fn spec_norm_label(l: Option<Seq<char>>) -> Option<Seq<char>> {
    match l {
        Some(s) => if spec_is_blank(s) {
            None
        } else {
            Some(s)
        },
        None => None,
    }
}

/// A label that is set is not blank.
pub open spec fn label_wf(l: &Option<String>) -> bool {
    match l {
        Some(s) => !spec_is_blank(s@),
        None => true,
    }
}

pub fn is_space_char_exec(c: char) -> (r: bool)
    ensures
        r == is_space_char(c),
{
    c == ' ' || c == '\t' || c == '\n' || c == '\u{b}' || c == '\u{c}' || c == '\r' || c == '\u{85}'
        || c == '\u{a0}' || c == '\u{1680}' || ('\u{2000}' <= c && c <= '\u{200a}') || c
        == '\u{2028}' || c == '\u{2029}' || c == '\u{202f}' || c == '\u{205f}' || c == '\u{3000}'
}

/// Whether `s` holds nothing but blank space.
pub fn is_blank(s: &str) -> (r: bool)
    ensures
        r == spec_is_blank(s@),
{
    let v = chars_of(s);
    let mut i: usize = 0;
    while i < v.len()
        invariant
            i <= v@.len(),
            v@ == s@,
            forall|k: int| 0 <= k < i ==> is_space_char(#[trigger] v@[k]),
        decreases v@.len() - i,
    {
        if !is_space_char_exec(v[i]) {
            return false;
        }
        i = i + 1;
    }
    true
}

/// Normalizes label input: blank clears the label, anything else is
/// kept as given.
pub fn normalize_label(value: &str) -> (r: Option<String>)
    ensures
        label_view(&r) == spec_norm_label(Some(value@)),
        label_wf(&r),
{
    if is_blank(value) {
        None
    } else {
        Some(value.to_owned())
    }
}

/// The persisted record describing one snapshot.
#[derive(Debug, Clone, PartialEq, Eq)]
pub struct SnapshotMetadata {
    /// The immutable 128-bit identity, assigned at creation.
    pub uuid: SnapshotId,
    /// An optional short label; never set to a blank value.
    pub name: Option<String>,
    /// Optional free text; never set to a blank value.
    pub description: Option<String>,
    /// The creation time in RFC 3339 form, captured once.
    pub creation_time: String,
    /// The ordered list of captured subvolume paths.
    pub subvolumes: Vec<String>,
}

impl SnapshotMetadata {
    /// A well-formed record: the timestamp is in the fixed textual
    /// standard and set labels are not blank.
    pub open spec fn wf(&self) -> bool {
        &&& is_rfc3339(self.creation_time@)
        &&& label_wf(&self.name)
        &&& label_wf(&self.description)
    }

    /// Builds the record for a snapshot taken now: a fresh random
    /// identity, the current time, normalized labels, and the captured
    /// subvolume list as given.
    pub fn now(name: Option<String>, description: Option<String>, subvolumes: Vec<String>) -> (r:
        SnapshotMetadata)
        ensures
            has_v4_layout(r.uuid.value),
            label_view(&r.name) == spec_norm_label(label_view(&name)),
            label_view(&r.description) == spec_norm_label(label_view(&description)),
            r.subvolumes == subvolumes,
            r.wf(),
    {
        let name = match name {
            Some(n) => normalize_label(n.as_str()),
            None => None,
        };
        let description = match description {
            Some(d) => normalize_label(d.as_str()),
            None => None,
        };
        SnapshotMetadata {
            uuid: SnapshotId::fresh(),
            name,
            description,
            creation_time: current_time_rfc3339(),
            subvolumes,
        }
    }
}

} // verus!
