//! The migration store: an ordered collection of migrations with strictly
//! increasing, unique ids, the single source of truth for apply order.

use vstd::prelude::*;

use crate::model::{migration_ids, migration_views, predecessors_earlier, Migration, MigrationV};

verus! {

/// Why a list of migrations cannot form a store.
#[derive(Clone, Copy, Debug, PartialEq, Eq, Structural)]
pub enum StoreError {
    /// Two migrations carry the same id.
    DuplicateId {
        /// The id that occurs more than once
        id: u16,
    },
    /// A migration lists a predecessor that is not strictly earlier.
    PredecessorNotEarlier {
        /// The id of the offending migration
        id: u16,
        /// The predecessor that is not smaller than `id`
        predecessor: u16,
    },
}

/// No two entries share an id.
pub open spec fn no_duplicate_ids(s: Seq<MigrationV>) -> bool {
    forall|i: int, j: int| 0 <= i < j < s.len() ==> s[i].id != s[j].id
}

/// Entries are sorted by strictly increasing id.
pub open spec fn sorted_by_id(s: Seq<MigrationV>) -> bool {
    forall|i: int, j: int| 0 <= i < j < s.len() ==> s[i].id < s[j].id
}

/// Every entry lists only predecessors strictly earlier than itself.
pub open spec fn all_predecessors_earlier(s: Seq<MigrationV>) -> bool {
    forall|i: int| 0 <= i < s.len() ==> predecessors_earlier(s[i])
}

/// Well-formedness of a store's contents: ascending unique ids, and
/// predecessors that always point backwards.
pub open spec fn store_wf(s: Seq<MigrationV>) -> bool {
    sorted_by_id(s) && all_predecessors_earlier(s)
}

/// An ordered collection of migrations, ascending by id.
///
/// Built by [`MigrationStore::from_migrations`], which sorts its input and
/// rejects duplicate ids, so a store's contents always satisfy [`store_wf`].
#[derive(Debug)]
pub struct MigrationStore {
    migrations: Vec<Migration>,
}

impl View for MigrationStore {
    type V = Seq<MigrationV>;

    closed spec fn view(&self) -> Seq<MigrationV> {
        migration_views(self.migrations@)
    }
}

impl MigrationStore {
    /// The store's invariant; established by the constructor and preserved
    /// by everything that produces a store.
    pub open spec fn wf(&self) -> bool {
        store_wf(self@)
    }

    /// Order migrations by ascending id, rejecting duplicate ids and
    /// predecessors that do not point backwards. On success the store holds
    /// exactly the given migrations, sorted.
    pub fn from_migrations(list: Vec<Migration>) -> (r: Result<MigrationStore, StoreError>)
        ensures
            r is Ok <==> (no_duplicate_ids(migration_views(list@)) && all_predecessors_earlier(
                migration_views(list@),
            )),
            (match r {
                Ok(store) => store.wf() && store@.to_multiset() == migration_views(
                    list@,
                ).to_multiset(),
                Err(StoreError::DuplicateId { id }) => (exists|i: int, j: int|
                    0 <= i < j < list@.len() && migration_views(list@)[i].id == id
                        && migration_views(list@)[j].id == id),
                Err(StoreError::PredecessorNotEarlier { id, predecessor }) => (exists|i: int, k: int|
                    0 <= i < migration_views(list@).len() && #[trigger] migration_views(
                        list@,
                    )[i].id == id && 0 <= k < migration_views(list@)[i].predecessors.len()
                        && #[trigger] migration_views(list@)[i].predecessors[k] == predecessor
                        && predecessor >= id),
            }),
    {
        broadcast use vstd::seq_lib::group_to_multiset_ensures;

        let ghost lv = migration_views(list@);
        let n = list.len();
        let mut i: usize = 0;
        while i < n
            invariant
                lv == migration_views(list@),
                n == list@.len(),
                i <= n,
                forall|l: int| 0 <= l < i ==> predecessors_earlier(lv[l]),
            decreases n - i,
        {
            let preds = &list[i].predecessors;
            let mut k: usize = 0;
            while k < preds.len()
                invariant
                    lv == migration_views(list@),
                    i < n,
                    n == list@.len(),
                    preds@ == lv[i as int].predecessors,
                    k <= preds@.len(),
                    forall|t: int| 0 <= t < k ==> lv[i as int].predecessors[t] < lv[i as int].id,
                decreases preds@.len() - k,
            {
                if preds[k] >= list[i].id {
                    return Err(
                        StoreError::PredecessorNotEarlier {
                            id: list[i].id,
                            predecessor: preds[k],
                        },
                    );
                }
                k += 1;
            }
            i += 1;
        }
        assert(all_predecessors_earlier(lv));

        let mut out: Vec<Migration> = Vec::new();
        let mut i: usize = 0;
        proof {
            assert(migration_views(out@) =~= lv.take(0));
        }
        while i < n
            invariant
                lv == migration_views(list@),
                n == list@.len(),
                i <= n,
                sorted_by_id(migration_views(out@)),
                migration_views(out@).to_multiset() == lv.take(i as int).to_multiset(),
                no_duplicate_ids(lv.take(i as int)),
                all_predecessors_earlier(lv),
            decreases n - i,
        {
            let m = list[i].clone();
            assert(m@ == lv[i as int]);
            let mut k: usize = 0;
            while k < out.len() && out[k].id < m.id
                invariant
                    k <= out@.len(),
                    forall|t: int| 0 <= t < k ==> migration_views(out@)[t].id < m@.id,
                decreases out@.len() - k,
            {
                k += 1;
            }
            if k < out.len() && out[k].id == m.id {
                proof {
                    // the colliding entry already sits in the processed prefix
                    let ov = migration_views(out@);
                    ov.to_multiset_ensures();
                    lv.take(i as int).to_multiset_ensures();
                    assert(ov.contains(ov[k as int]));
                    assert(ov.to_multiset().count(ov[k as int]) > 0);
                    assert(lv.take(i as int).to_multiset().count(ov[k as int]) > 0);
                    assert(lv.take(i as int).contains(ov[k as int]));
                    let l = choose|l: int|
                        0 <= l < lv.take(i as int).len() && lv.take(i as int)[l] == ov[k as int];
                    assert(lv[l].id == m@.id && lv[i as int].id == m@.id && l < i);
                }
                return Err(StoreError::DuplicateId { id: m.id });
            }
            proof {
                // everything at or after the scan position has a larger id
                let ov = migration_views(out@);
                assert(forall|t: int| k <= t < ov.len() ==> ov[t].id > m@.id) by {
                    assert(forall|t: int|
                        (k as int) < t < ov.len() ==> ov[(k as int)].id <= ov[t].id);
                }
            }
            let ghost old_out = out@;
            out.insert(k, m);
            proof {
                old_out.insert_ensures(k as int, m);
                let ov_old = migration_views(old_out);
                let ov_new = migration_views(out@);
                assert(ov_new =~= ov_old.insert(k as int, m@)) by {
                    ov_old.insert_ensures(k as int, m@);
                }
                vstd::seq_lib::to_multiset_insert(ov_old, k as int, m@);
                assert(lv.take(i + 1 as int) =~= lv.take(i as int).push(lv[i as int]));
                vstd::seq_lib::to_multiset_build(lv.take(i as int), lv[i as int]);
                assert(lv.take(i as int).push(lv[i as int]).to_multiset() == lv.take(
                    i as int,
                ).to_multiset().insert(lv[i as int]));
                assert(ov_new.to_multiset() == lv.take(i + 1 as int).to_multiset());
                assert(sorted_by_id(ov_new));
                // the freshly inserted migration's id collides with nothing,
                // so the processed prefix stays free of duplicate ids
                assert forall|l: int| 0 <= l < i implies lv[l].id != m@.id by {
                    lv.take(i as int).to_multiset_ensures();
                    ov_old.to_multiset_ensures();
                    assert(lv.take(i as int)[l] == lv[l]);
                    assert(lv.take(i as int).contains(lv[l]));
                    assert(lv.take(i as int).to_multiset().count(lv[l]) > 0);
                    assert(ov_old.to_multiset().count(lv[l]) > 0);
                    assert(ov_old.contains(lv[l]));
                    let t = choose|t: int| 0 <= t < ov_old.len() && ov_old[t] == lv[l];
                    assert(ov_old[t].id != m@.id);
                }
                assert(no_duplicate_ids(lv.take(i + 1 as int)));
            }
            i += 1;
        }
        proof {
            assert(lv.take(n as int) =~= lv);
            let ovf = migration_views(out@);
            assert forall|t: int| 0 <= t < ovf.len() implies predecessors_earlier(ovf[t]) by {
                ovf.to_multiset_ensures();
                lv.to_multiset_ensures();
                assert(ovf.contains(ovf[t]));
                assert(ovf.to_multiset().count(ovf[t]) > 0);
                assert(lv.to_multiset().count(ovf[t]) > 0);
                assert(lv.contains(ovf[t]));
                let l = choose|l: int| 0 <= l < lv.len() && lv[l] == ovf[t];
                assert(predecessors_earlier(lv[l]));
            }
        }
        Ok(MigrationStore { migrations: out })
    }

    /// The migrations of the store, ascending by id.
    pub fn migrations(&self) -> (r: &Vec<Migration>)
        ensures
            migration_views(r@) == self@,
    {
        &self.migrations
    }

    /// How many migrations the store holds.
    pub fn len(&self) -> (r: usize)
        ensures
            r == self@.len(),
    {
        self.migrations.len()
    }

    /// Whether some migration in the store has the given id.
    pub fn contains_id(&self, id: u16) -> (r: bool)
        ensures
            r == migration_ids(self@).contains(id),
    {
        let mut i: usize = 0;
        let n = self.migrations.len();
        while i < n
            invariant
                n == self@.len(),
                self@ == migration_views(self.migrations@),
                forall|l: int| 0 <= l < i ==> self@[l].id != id,
            decreases n - i,
        {
            if self.migrations[i].id == id {
                assert(migration_ids(self@)[i as int] == id);
                return true;
            }
            i += 1;
        }
        assert(forall|l: int| 0 <= l < migration_ids(self@).len() ==> migration_ids(self@)[l]
            != id);
        false
    }

    /// The id a newly written migration gets: one past the largest id in
    /// the store, or 1 for an empty store.
    pub fn next_free_id(&self) -> (r: u16)
        requires
            self@.len() == 0 || self@.last().id < u16::MAX,
        ensures
            self@.len() == 0 ==> r == 1,
            self@.len() > 0 ==> r == self@.last().id + 1,
    {
        if self.migrations.len() == 0 {
            1
        } else {
            self.migrations[self.migrations.len() - 1].id + 1
        }
    }

    /// Wrap an already ordered, well-formed list of migrations.
    pub(crate) fn from_sorted(list: Vec<Migration>) -> (r: MigrationStore)
        requires
            store_wf(migration_views(list@)),
        ensures
            r@ == migration_views(list@),
            r.wf(),
    {
        MigrationStore { migrations: list }
    }
}

} // verus!
