//! The engine's cross-cutting guarantees, stated and proved once.
//!
//! The persisted listing is modelled as the sequence of metadata
//! records whose files exist under the storage path: a create appends
//! the new record (its file is written only after every clone
//! succeeded), a delete drops every record with the deleted identity,
//! and a restore appends the backup record while touching no other.

use vstd::prelude::*;

use crate::id::spec_format_id;
use crate::id::spec_id_value;
use crate::id::valid_id_str;
use crate::id::lemma_format_parse_round_trip;
use crate::metadata::SnapshotMetadata;
use crate::metadata::spec_is_blank;
use crate::metadata::spec_norm_label;
use crate::service::spec_find;
use crate::service::spec_try_acquire;
use crate::service::lemma_find_after_insert;
use crate::snapshot_object::spec_label_text;

verus! {

/// The listing after a create: the new record appended.
pub open spec fn store_after_create(
    list: Seq<SnapshotMetadata>,
    m: SnapshotMetadata,
) -> Seq<SnapshotMetadata> {
    list.push(m)
}

/// The listing after a delete: every record with the deleted identity
/// dropped, the rest kept in order.
pub open spec fn store_after_delete(list: Seq<SnapshotMetadata>, id: u128) -> Seq<
    SnapshotMetadata,
> {
    list.filter(|x: SnapshotMetadata| x.uuid.value != id)
}

/// The listing after a restore: the backup record appended.
pub open spec fn store_after_restore(
    list: Seq<SnapshotMetadata>,
    backup: SnapshotMetadata,
) -> Seq<SnapshotMetadata> {
    list.push(backup)
}

proof fn lemma_filter_none<A>(list: Seq<A>, pred: spec_fn(A) -> bool)
    requires
        forall|i: int| 0 <= i < list.len() ==> !pred(#[trigger] list[i]),
    ensures
        list.filter(pred).len() == 0,
    decreases list.len(),
{
    reveal(Seq::filter);
    if list.len() > 0 {
        let head = list.drop_last();
        assert forall|i: int| 0 <= i < head.len() implies !pred(#[trigger] head[i]) by {
            assert(head[i] == list[i]);
        }
        lemma_filter_none(head, pred);
        assert(!pred(list.last()));
    }
}

/// Creating a snapshot with a fresh identity leaves the listing with
/// exactly one record under that identity, and that record is the one
/// just created: its captured subvolume set is the requested one.
pub proof fn lemma_create_then_list(list: Seq<SnapshotMetadata>, m: SnapshotMetadata)
    requires
        forall|i: int| 0 <= i < list.len() ==> (#[trigger] list[i]).uuid.value != m.uuid.value,
    ensures
        store_after_create(list, m).contains(m),
        forall|i: int|
            0 <= i < store_after_create(list, m).len() && (#[trigger] store_after_create(list, m)[i]).uuid.value
                == m.uuid.value ==> store_after_create(list, m)[i] == m,
        store_after_create(list, m).filter(|x: SnapshotMetadata| x.uuid.value == m.uuid.value).len()
            == 1,
{
    let after = store_after_create(list, m);
    assert(after[list.len() as int] == m);
    let pred = |x: SnapshotMetadata| x.uuid.value == m.uuid.value;
    assert forall|i: int| 0 <= i < list.len() implies !pred(#[trigger] list[i]) by {}
    lemma_filter_none(list, pred);
    reveal(Seq::filter);
    assert(after.drop_last() =~= list);
    assert(after.filter(pred) =~= list.filter(pred).push(m));
}

/// A snapshot is looked up by the identity string its handle reports:
/// after a create has registered the fresh identity, resolving that
/// printed identity finds the created snapshot's handle, every time.
pub proof fn lemma_lookup_after_create(entries: Seq<(u128, String)>, id: u128, handle: String)
    requires
        spec_find(entries, id) is None,
    ensures
        valid_id_str(spec_format_id(id)),
        spec_id_value(spec_format_id(id)) == id,
        spec_find(entries.push((id, handle)), id) == Some(handle@),
{
    lemma_format_parse_round_trip(id);
    lemma_find_after_insert(entries, id, handle);
}

/// Writing a label and reading it back yields the value written;
/// writing a blank value clears the label to the default empty
/// reading.
pub proof fn lemma_label_write_read(value: Seq<char>)
    ensures
        !spec_is_blank(value) ==> spec_label_text(spec_norm_label(Some(value))) == value,
        spec_is_blank(value) ==> spec_norm_label(Some(value)) is None,
        spec_is_blank(value) ==> spec_label_text(spec_norm_label(Some(value)))
            == Seq::<char>::empty(),
{
}

/// Of two serialized attempts on a free action lock, the first is
/// granted and the second is refused: never both, and neither waits.
pub proof fn lemma_action_lock_mutual_exclusion()
    ensures
        forall|held: bool| (#[trigger] spec_try_acquire(held)).0 == !held,
        spec_try_acquire(false).0,
        !spec_try_acquire(spec_try_acquire(false).1).0,
{
}

/// After a delete, no listed record carries the deleted identity, and
/// every record under another identity is still listed.
pub proof fn lemma_delete_then_list(list: Seq<SnapshotMetadata>, id: u128)
    ensures
        forall|i: int|
            0 <= i < store_after_delete(list, id).len() ==> (#[trigger] store_after_delete(
                list,
                id,
            )[i]).uuid.value != id,
        forall|i: int|
            0 <= i < list.len() && (#[trigger] list[i]).uuid.value != id ==> store_after_delete(
                list,
                id,
            ).contains(list[i]),
{
    let pred = |x: SnapshotMetadata| x.uuid.value != id;
    assert forall|i: int| 0 <= i < store_after_delete(list, id).len() implies (
    #[trigger] store_after_delete(list, id)[i]).uuid.value != id by {
        list.lemma_filter_pred(pred, i);
    }
    assert forall|i: int|
        0 <= i < list.len() && (#[trigger] list[i]).uuid.value != id implies store_after_delete(
        list,
        id,
    ).contains(list[i]) by {
        list.lemma_filter_contains(pred, i);
    }
}

/// A restore first backs the current state up: the new backup record
/// carries a fresh identity distinct from the restored one, and the
/// listing afterwards holds both the untouched original record and the
/// backup.
pub proof fn lemma_restore_backs_up(
    list: Seq<SnapshotMetadata>,
    source_index: int,
    backup: SnapshotMetadata,
)
    requires
        0 <= source_index < list.len(),
        backup.uuid.value != list[source_index].uuid.value,
    ensures
        store_after_restore(list, backup)[source_index] == list[source_index],
        store_after_restore(list, backup).contains(backup),
        store_after_restore(list, backup).len() == list.len() + 1,
        store_after_restore(list, backup)[source_index].uuid.value != backup.uuid.value,
{
    let after = store_after_restore(list, backup);
    assert(after[list.len() as int] == backup);
}

} // verus!
