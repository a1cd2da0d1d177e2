//! The shared service state: the registry of published snapshots and
//! the single-flight action lock.
//!
//! The registry maps a snapshot identity to the object path under
//! which the snapshot is addressable; an entry is created when a
//! snapshot is created or discovered at startup and erased when it is
//! deleted, never otherwise changed. The action lock serializes every
//! mutating operation: create, restore and delete take it without
//! waiting and surface busyness to the caller, a configuration reload
//! waits for it.

use vstd::prelude::*;

use crate::SnapshotError;
use crate::config::Config;
use crate::id::SnapshotId;
use crate::id::parse_id;
use crate::id::valid_id_str;
use crate::id::spec_id_value;
use crate::paths::spec_object_path;
use crate::paths::object_path_for_index;

verus! {

broadcast use vstd::std_specs::vec::axiom_spec_len;

/// The first handle registered under `id`, if any.
pub open spec fn spec_find(entries: Seq<(u128, String)>, id: u128) -> Option<Seq<char>>
    decreases entries.len(),
{
    if entries.len() == 0 {
        None
    } else if entries[0].0 == id {
        Some(entries[0].1@)
    } else {
        spec_find(entries.drop_first(), id)
    }
}

/// Whether some entry carries `id`.
pub open spec fn spec_contains_id(entries: Seq<(u128, String)>, id: u128) -> bool {
    exists|i: int| 0 <= i < entries.len() && (#[trigger] entries[i]).0 == id
}

pub proof fn lemma_find_contains(entries: Seq<(u128, String)>, id: u128)
    ensures
        spec_find(entries, id) is Some <==> spec_contains_id(entries, id),
    decreases entries.len(),
{
    if entries.len() > 0 {
        lemma_find_contains(entries.drop_first(), id);
        if entries[0].0 == id {
        } else {
            assert forall|i: int|
                0 <= i < entries.len() && (#[trigger] entries[i]).0 == id implies spec_contains_id(
                entries.drop_first(),
                id,
            ) by {
                assert(entries.drop_first()[i - 1] == entries[i]);
            }
            assert forall|i: int|
                0 <= i < entries.drop_first().len() && (#[trigger] entries.drop_first()[i]).0 == id
                    implies spec_contains_id(entries, id) by {
                assert(entries[i + 1] == entries.drop_first()[i]);
            }
        }
    }
}

/// Inserting a fresh identity makes it resolvable to its handle.
pub proof fn lemma_find_after_insert(entries: Seq<(u128, String)>, id: u128, handle: String)
    requires
        spec_find(entries, id) is None,
    ensures
        spec_find(entries.push((id, handle)), id) == Some(handle@),
    decreases entries.len(),
{
    let after = entries.push((id, handle));
    if entries.len() == 0 {
        assert(after[0] == (id, handle));
    } else {
        assert(after[0] == entries[0]);
        assert(after.drop_first() =~= entries.drop_first().push((id, handle)));
        lemma_find_after_insert(entries.drop_first(), id, handle);
    }
}

/// After every entry with `id` is dropped, `id` no longer resolves.
pub proof fn lemma_find_after_remove(entries: Seq<(u128, String)>, id: u128)
    ensures
        spec_find(entries.filter(|e: (u128, String)| e.0 != id), id) is None,
    decreases entries.len(),
{
    reveal(Seq::filter);
    if entries.len() > 0 {
        lemma_find_after_remove(entries.drop_last(), id);
        let f0 = entries.drop_last().filter(|e: (u128, String)| e.0 != id);
        if entries.last().0 != id {
            assert(entries.filter(|e: (u128, String)| e.0 != id) == f0.push(entries.last()));
            lemma_find_push_other(f0, entries.last(), id);
        } else {
            assert(entries.filter(|e: (u128, String)| e.0 != id) == f0);
        }
    }
}

proof fn lemma_find_push_other(entries: Seq<(u128, String)>, e: (u128, String), id: u128)
    requires
        spec_find(entries, id) is None,
        e.0 != id,
    ensures
        spec_find(entries.push(e), id) is None,
    decreases entries.len(),
{
    reveal_with_fuel(spec_find, 2);
    let after = entries.push(e);
    if entries.len() == 0 {
        assert(after[0] == e);
        assert(after.drop_first() =~= Seq::<(u128, String)>::empty());
    } else {
        assert(after[0] == entries[0]);
        assert(after.drop_first() =~= entries.drop_first().push(e));
        lemma_find_push_other(entries.drop_first(), e, id);
    }
}

/// Pairwise distinct identities.
pub open spec fn distinct_ids(entries: Seq<(u128, String)>) -> bool {
    forall|i: int, j: int|
        0 <= i < j < entries.len() ==> (#[trigger] entries[i]).0 != (#[trigger] entries[j]).0
}

/// Dropping entries keeps the rest distinct, and invents none.
pub proof fn lemma_filter_distinct(
    entries: Seq<(u128, String)>,
    pred: spec_fn((u128, String)) -> bool,
)
    requires
        distinct_ids(entries),
    ensures
        distinct_ids(entries.filter(pred)),
        forall|x: (u128, String)| #[trigger]
            entries.filter(pred).contains(x) ==> entries.contains(x),
    decreases entries.len(),
{
    reveal(Seq::filter);
    if entries.len() > 0 {
        let head = entries.drop_last();
        let f0 = head.filter(pred);
        assert(distinct_ids(head)) by {
            assert forall|i: int, j: int|
                0 <= i < j < head.len() implies (#[trigger] head[i]).0 != (#[trigger] head[j]).0 by {
                assert(head[i] == entries[i] && head[j] == entries[j]);
            }
        }
        lemma_filter_distinct(head, pred);
        assert forall|x: (u128, String)| #[trigger] head.contains(x) implies entries.contains(
            x,
        ) by {
            let j = choose|j: int| 0 <= j < head.len() && head[j] == x;
            assert(entries[j] == x);
        }
        if pred(entries.last()) {
            let f = f0.push(entries.last());
            assert(entries.filter(pred) == f);
            assert(entries.contains(entries.last())) by {
                assert(entries[entries.len() - 1] == entries.last());
            }
            assert forall|i: int, j: int|
                0 <= i < j < f.len() implies (#[trigger] f[i]).0 != (#[trigger] f[j]).0 by {
                if j < f.len() - 1 {
                    assert(f[i] == f0[i] && f[j] == f0[j]);
                } else {
                    assert(f[i] == f0[i]);
                    assert(f0.contains(f0[i]));
                    assert(head.contains(f0[i]));
                    let k = choose|k: int| 0 <= k < head.len() && head[k] == f0[i];
                    assert(entries[k] == f0[i]);
                    assert(entries[k].0 != entries.last().0);
                }
            }
            assert forall|x: (u128, String)| #[trigger] f.contains(x) implies entries.contains(
                x,
            ) by {
                let j = choose|j: int| 0 <= j < f.len() && f[j] == x;
                if j < f.len() - 1 {
                    assert(f0[j] == x);
                    assert(f0.contains(x));
                } else {
                    assert(x == entries.last());
                }
            }
        }
    }
}

/// The registry of published snapshots: identity to object path,
/// identities pairwise distinct.
pub struct SnapshotRegistry {
    pub entries: Vec<(u128, String)>,
}

impl SnapshotRegistry {
    /// Identities are registered at most once.
    pub open spec fn wf(&self) -> bool {
        forall|i: int, j: int|
            0 <= i < j < self.entries@.len() ==> (#[trigger] self.entries@[i]).0 != (
            #[trigger] self.entries@[j]).0
    }

    pub fn new() -> (r: SnapshotRegistry)
        ensures
            r.entries@.len() == 0,
            r.wf(),
    {
        SnapshotRegistry { entries: Vec::new() }
    }

    /// Looks an identity up, never blocking on the action lock.
    pub fn find(&self, id: u128) -> (r: Option<String>)
        ensures
            match r {
                Some(h) => spec_find(self.entries@, id) == Some(h@),
                None => spec_find(self.entries@, id) is None,
            },
    {
        proof {
            assert(self.entries@.skip(0) =~= self.entries@);
        }
        let mut i: usize = 0;
        while i < self.entries.len()
            invariant
                i <= self.entries@.len(),
                spec_find(self.entries@, id) == spec_find(self.entries@.skip(i as int), id),
            decreases self.entries@.len() - i,
        {
            let ghost rest = self.entries@.skip(i as int);
            if self.entries[i].0 == id {
                proof {
                    assert(rest[0] == self.entries@[i as int]);
                }
                return Some(self.entries[i].1.clone());
            }
            proof {
                assert(rest[0] == self.entries@[i as int]);
                assert(rest.drop_first() =~= self.entries@.skip(i as int + 1));
            }
            i = i + 1;
        }
        proof {
            assert(self.entries@.skip(self.entries@.len() as int).len() == 0);
        }
        None
    }

    /// Registers a fresh identity under its handle.
    pub fn insert(&mut self, id: u128, handle: String)
        requires
            old(self).wf(),
            !spec_contains_id(old(self).entries@, id),
        ensures
            final(self).entries@ == old(self).entries@.push((id, handle)),
            final(self).wf(),
    {
        self.entries.push((id, handle));
        proof {
            assert forall|i: int, j: int|
                0 <= i < j < self.entries@.len() implies (#[trigger] self.entries@[i]).0 != (
                #[trigger] self.entries@[j]).0 by {
                if j < self.entries@.len() - 1 {
                } else {
                    assert(old(self).entries@[i] == self.entries@[i]);
                }
            }
        }
    }

    /// Erases every entry under `id`; the rest keep their order.
    pub fn remove(&mut self, id: u128)
        ensures
            final(self).entries@ == old(self).entries@.filter(|e: (u128, String)| e.0 != id),
            old(self).wf() ==> final(self).wf(),
    {
        let ghost pred = |e: (u128, String)| e.0 != id;
        let n = self.entries.len();
        let mut kept: Vec<(u128, String)> = Vec::new();
        let mut i: usize = 0;
        while i < n
            invariant
                i <= n,
                n == self.entries@.len(),
                pred == (|e: (u128, String)| e.0 != id),
                kept@ == self.entries@.subrange(0, i as int).filter(pred),
            decreases n - i,
        {
            let ghost prefix = self.entries@.subrange(0, i as int);
            let ghost next = self.entries@.subrange(0, i as int + 1);
            if self.entries[i].0 != id {
                let pair = (self.entries[i].0, self.entries[i].1.clone());
                proof {
                    assert(pair == self.entries@[i as int]);
                }
                kept.push(pair);
            }
            i = i + 1;
            proof {
                assert(next.drop_last() =~= prefix);
                assert(next.last() == self.entries@[i - 1]);
                reveal(Seq::filter);
            }
        }
        proof {
            assert(self.entries@.subrange(0, n as int) =~= self.entries@);
        }
        self.entries = kept;
        proof {
            if old(self).wf() {
                lemma_filter_distinct(old(self).entries@, pred);
            }
        }
    }

    /// The currently published handles, in registration order.
    pub fn handles(&self) -> (r: Vec<String>)
        ensures
            r@.len() == self.entries@.len(),
            forall|i: int| 0 <= i < r@.len() ==> #[trigger] r@[i] == self.entries@[i].1,
    {
        let mut r: Vec<String> = Vec::new();
        let mut i: usize = 0;
        while i < self.entries.len()
            invariant
                i <= self.entries@.len(),
                r@.len() == i,
                forall|k: int| 0 <= k < i ==> #[trigger] r@[k] == self.entries@[k].1,
            decreases self.entries@.len() - i,
        {
            r.push(self.entries[i].1.clone());
            i = i + 1;
        }
        r
    }
}

/// What one non-waiting attempt on the action lock does: it is granted
/// exactly when the lock was free, and the lock is held afterwards
/// either way.
pub open spec fn spec_try_acquire(held: bool) -> (bool, bool) {
    (!held, true)
}

/// The top-level service state: the registry of published snapshots,
/// the current configuration, the action lock, and the next
/// publication index.
pub struct SnapshotService {
    pub registry: SnapshotRegistry,
    pub config: Config,
    pub action_lock_held: bool,
    pub next_object_index: u64,
}

impl SnapshotService {
    pub open spec fn wf(&self) -> bool {
        self.registry.wf()
    }

    /// A fresh service: nothing published, the action lock free.
    pub fn new(config: Config) -> (r: SnapshotService)
        ensures
            r.registry.entries@.len() == 0,
            r.config == config,
            !r.action_lock_held,
            r.next_object_index == 1,
            r.wf(),
    {
        SnapshotService {
            registry: SnapshotRegistry::new(),
            config,
            action_lock_held: false,
            next_object_index: 1,
        }
    }

    /// The currently published handles, in registration order. A read
    /// never contends on the action lock.
    pub fn snapshots(&self) -> (r: Vec<String>)
        ensures
            r@.len() == self.registry.entries@.len(),
            forall|i: int| 0 <= i < r@.len() ==> #[trigger] r@[i] == self.registry.entries@[i].1,
    {
        self.registry.handles()
    }

    /// Resolves a caller-supplied identity string: an error exactly on
    /// malformed input, absence reported as an empty result, never as
    /// an error.
    pub fn find_snapshot(&self, uuid: &str) -> (r: Result<Option<String>, SnapshotError>)
        ensures
            r is Ok <==> valid_id_str(uuid@),
            r is Err ==> r == Err::<Option<String>, SnapshotError>(SnapshotError::InvalidIdentity),
            r is Ok ==> match r.unwrap() {
                Some(h) => spec_find(self.registry.entries@, spec_id_value(uuid@) as u128) == Some(
                    h@,
                ),
                None => spec_find(self.registry.entries@, spec_id_value(uuid@) as u128) is None,
            },
    {
        let id = match parse_id(uuid) {
            Ok(id) => id,
            Err(e) => {
                return Err(e);
            },
        };
        Ok(self.registry.find(id.value))
    }

    /// Takes the action lock without waiting: busy exactly when it is
    /// already held, and nothing else changes on failure.
    pub fn try_begin_action(&mut self) -> (r: Result<(), SnapshotError>)
        ensures
            r is Ok <==> !old(self).action_lock_held,
            r is Err ==> r == Err::<(), SnapshotError>(SnapshotError::Busy),
            final(self).action_lock_held == spec_try_acquire(old(self).action_lock_held).1,
            r is Ok ==> spec_try_acquire(old(self).action_lock_held).0,
            final(self).registry == old(self).registry,
            final(self).config == old(self).config,
            final(self).next_object_index == old(self).next_object_index,
    {
        if self.action_lock_held {
            Err(SnapshotError::Busy)
        } else {
            self.action_lock_held = true;
            Ok(())
        }
    }

    /// Releases the action lock at the end of a mutating operation.
    pub fn end_action(&mut self)
        ensures
            !final(self).action_lock_held,
            final(self).registry == old(self).registry,
            final(self).config == old(self).config,
            final(self).next_object_index == old(self).next_object_index,
    {
        self.action_lock_held = false;
    }

    /// Replaces the configuration with a freshly parsed one, or keeps
    /// the prior configuration when the reload handed none over.
    ///
    /// A reload waits for the action lock rather than failing: it runs
    /// only once no mutating operation is in flight.
    pub fn reload_config(&mut self, parsed: Option<Config>) -> (r: Result<(), SnapshotError>)
        requires
            !old(self).action_lock_held,
        ensures
            r is Ok <==> parsed is Some,
            r is Err ==> r == Err::<(), SnapshotError>(SnapshotError::ConfigInvalid),
            final(self).config == match parsed {
                Some(c) => c,
                None => old(self).config,
            },
            !final(self).action_lock_held,
            final(self).registry == old(self).registry,
            final(self).next_object_index == old(self).next_object_index,
    {
        match parsed {
            Some(c) => {
                self.config = c;
                Ok(())
            },
            None => Err(SnapshotError::ConfigInvalid),
        }
    }

    /// Publishes a newly created or discovered snapshot: allocates the
    /// next object path and registers the identity under it.
    pub fn publish_snapshot(&mut self, id: SnapshotId) -> (handle: String)
        requires
            old(self).wf(),
            !spec_contains_id(old(self).registry.entries@, id.value),
            old(self).next_object_index < u64::MAX,
        ensures
            handle@ == spec_object_path(old(self).next_object_index as int),
            final(self).registry.entries@ == old(self).registry.entries@.push(
                (id.value, handle),
            ),
            final(self).next_object_index == old(self).next_object_index + 1,
            final(self).config == old(self).config,
            final(self).action_lock_held == old(self).action_lock_held,
            final(self).wf(),
            spec_find(final(self).registry.entries@, id.value) == Some(handle@),
    {
        let handle = object_path_for_index(self.next_object_index);
        self.next_object_index = self.next_object_index + 1;
        self.registry.insert(id.value, handle.clone());
        proof {
            lemma_find_contains(old(self).registry.entries@, id.value);
            lemma_find_after_insert(old(self).registry.entries@, id.value, handle);
        }
        handle
    }

    /// Unpublishes a deleted snapshot: its registry entry is erased,
    /// every other entry is kept in order, and the identity no longer
    /// resolves.
    pub fn remove_snapshot(&mut self, id: SnapshotId)
        ensures
            final(self).registry.entries@ == old(self).registry.entries@.filter(
                |e: (u128, String)| e.0 != id.value,
            ),
            spec_find(final(self).registry.entries@, id.value) is None,
            old(self).wf() ==> final(self).wf(),
            final(self).config == old(self).config,
            final(self).action_lock_held == old(self).action_lock_held,
            final(self).next_object_index == old(self).next_object_index,
    {
        self.registry.remove(id.value);
        proof {
            lemma_find_after_remove(old(self).registry.entries@, id.value);
        }
    }
}

} // verus!
