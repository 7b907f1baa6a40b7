//! The merge engine: unify several divergent migration heads into a single
//! lineage by one new migration that builds on all of them.
//!
//! A head is a migration no other migration names as predecessor. With one
//! head (or none) there is nothing to do. With several, the engine checks
//! the diverging branches for operations that touch the same model — two
//! branches changing one model cannot be ordered unambiguously — and, when
//! free of conflict, synthesizes a migration with every head as predecessor
//! and no operations of its own. The store itself is never mutated.

use vstd::prelude::*;

use crate::model::{Migration, MigrationV, Operation, OperationV};
use crate::store::MigrationStore;

verus! {

/// Two heads both changed the named model; merging them needs a human.
#[derive(Debug, PartialEq)]
pub struct MergeConflictError {
    /// The model both branches changed
    pub model: String,
    /// One conflicting head
    pub head_a: u16,
    /// The other conflicting head
    pub head_b: u16,
}

/// The migration at position `i` is a head: nothing builds on its id.
pub open spec fn is_head(s: Seq<MigrationV>, i: int) -> bool {
    forall|j: int, k: int|
        0 <= j < s.len() && 0 <= k < s[j].predecessors.len() ==> #[trigger] s[j].predecessors[k]
            != s[i].id
}

/// The head ids from position `i` on, in store order.
pub open spec fn heads_from(s: Seq<MigrationV>, i: int) -> Seq<u16>
    decreases s.len() - i,
{
    if i < 0 || i >= s.len() {
        Seq::empty()
    } else {
        if is_head(s, i) {
            seq![s[i].id] + heads_from(s, i + 1)
        } else {
            heads_from(s, i + 1)
        }
    }
}

/// The ids of the store's heads, ascending.
pub open spec fn heads_of(s: Seq<MigrationV>) -> Seq<u16> {
    heads_from(s, 0)
}

/// The ids reachable along predecessors, swept from position `pos` down.
/// Predecessors always point backwards, so one descending sweep reaches
/// everything.
pub open spec fn reach_from(s: Seq<MigrationV>, acc: Set<u16>, pos: int) -> Set<u16>
    decreases pos + 1,
{
    if pos < 0 {
        acc
    } else {
        reach_from(
            s,
            if acc.contains(s[pos].id) {
                acc.union(s[pos].predecessors.to_set())
            } else {
                acc
            },
            pos - 1,
        )
    }
}

/// Every id the head builds on, the head's own id included.
pub open spec fn reachable_ids(s: Seq<MigrationV>, head: u16) -> Set<u16> {
    reach_from(s, Set::empty().insert(head), s.len() - 1)
}

/// Whether the operation changes the named model.
pub open spec fn op_touches_model(op: OperationV, m: Seq<char>) -> bool {
    match op {
        OperationV::CreateModel { name, .. } => name == m,
        OperationV::RenameModel { old, new } => old == m || new == m,
        OperationV::DeleteModel { name } => name == m,
        OperationV::CreateField { model, .. } => model == m,
        OperationV::RenameField { table_name, .. } => table_name == m,
        OperationV::DeleteField { model, .. } => model == m,
        OperationV::RawSQL { .. } => false,
    }
}

/// Whether the migration holds an operation changing the named model.
pub open spec fn migration_touches(mv: MigrationV, m: Seq<char>) -> bool {
    exists|k: int| 0 <= k < mv.operations.len() && op_touches_model(#[trigger] mv.operations[k], m)
}

/// A migration on `ha`'s side of the fork (reachable from `ha`, not from
/// `hb`) changes the named model.
pub open spec fn side_touches(s: Seq<MigrationV>, ha: u16, hb: u16, m: Seq<char>) -> bool {
    exists|p: int|
        0 <= p < s.len() && reachable_ids(s, ha).contains(#[trigger] s[p].id) && !reachable_ids(
            s,
            hb,
        ).contains(s[p].id) && migration_touches(s[p], m)
}

/// The branches below the two heads both change some one model.
pub open spec fn heads_conflict(s: Seq<MigrationV>, ha: u16, hb: u16) -> bool {
    exists|m: Seq<char>| side_touches(s, ha, hb, m) && side_touches(s, hb, ha, m)
}


/// Membership in a pushed sequence: the old members and the new element.
proof fn lemma_push_contains(s: Seq<u16>, v: u16)
    ensures
        forall|x: u16| #[trigger] s.push(v).contains(x) <==> (s.contains(x) || x == v),
{
    let s2 = s.push(v);
    assert(s2[s.len() as int] == v);
    assert(forall|i: int| 0 <= i < s.len() ==> s2[i] == s[i]);
    assert forall|x: u16| #[trigger] s2.contains(x) implies (s.contains(x) || x == v) by {
        let w = choose|w: int| 0 <= w < s2.len() && s2[w] == x;
        if w < s.len() {
            assert(s[w] == x);
        }
    }
    assert forall|x: u16| s.contains(x) implies s2.contains(x) by {
        let w = choose|w: int| 0 <= w < s.len() && s[w] == x;
        assert(s2[w] == x);
    }
}

/// Whether some id in the vector equals the given one.
fn holds_id(v: &Vec<u16>, id: u16) -> (r: bool)
    ensures
        r == v@.to_set().contains(id),
{
    let mut i: usize = 0;
    while i < v.len()
        invariant
            i <= v@.len(),
            forall|t: int| 0 <= t < i ==> v@[t] != id,
        decreases v@.len() - i,
    {
        if v[i] == id {
            assert(v@.contains(id));
            return true;
        }
        i += 1;
    }
    proof {
        if v@.to_set().contains(id) {
            assert(v@.contains(id));
        }
    }
    false
}

/// The ids reachable from the head, as a vector whose set of entries is
/// [`reachable_ids`].
fn reach_vec(store: &MigrationStore, head: u16) -> (r: Vec<u16>)
    ensures
        r@.to_set() == reachable_ids(store@, head),
{
    broadcast use vstd::seq_lib::group_seq_properties;

    let ghost sv = store@;
    let migs = store.migrations();
    let n = migs.len();
    let mut marked: Vec<u16> = Vec::new();
    marked.push(head);
    proof {
        assert(marked@.to_set() =~= Set::empty().insert(head));
    }
    let mut pos: usize = n;
    while pos > 0
        invariant
            sv == store@,
            crate::model::migration_views(migs@) == sv,
            n == sv.len(),
            pos <= n,
            reach_from(sv, marked@.to_set(), pos - 1) == reachable_ids(sv, head),
        decreases pos,
    {
        let p = pos - 1;
        let hit = holds_id(&marked, migs[p].id);
        let ghost base = marked@.to_set();
        if hit {
            let preds = &migs[p].predecessors;
            let mut k: usize = 0;
            while k < preds.len()
                invariant
                    p < n,
                    crate::model::migration_views(migs@) == sv,
                    n == sv.len(),
                    preds@ == sv[p as int].predecessors,
                    k <= preds@.len(),
                    marked@.to_set() == base.union(preds@.take(k as int).to_set()),
                decreases preds@.len() - k,
            {
                let ghost seq_before = marked@;
                let ghost cur = marked@.to_set();
                marked.push(preds[k]);
                proof {
                    lemma_push_contains(seq_before, preds@[k as int]);
                    assert(marked@.to_set() =~= cur.insert(preds@[k as int]));
                    assert(preds@.take(k + 1 as int) =~= preds@.take(k as int).push(
                        preds@[k as int],
                    ));
                    lemma_push_contains(preds@.take(k as int), preds@[k as int]);
                    assert(preds@.take(k as int).push(preds@[k as int]).to_set() =~= preds@.take(
                        k as int,
                    ).to_set().insert(preds@[k as int]));
                    assert(base.union(preds@.take(k + 1 as int).to_set()) =~= base.union(
                        preds@.take(k as int).to_set(),
                    ).insert(preds@[k as int]));
                }
                k += 1;
            }
            proof {
                assert(preds@.take(preds@.len() as int) =~= preds@);
                assert(marked@.to_set() =~= base.union(sv[p as int].predecessors.to_set()));
            }
        }
        proof {
            assert(reach_from(sv, marked@.to_set(), p as int - 1) == reach_from(
                sv,
                base,
                p as int,
            ));
        }
        pos = p;
    }
    proof {
        assert(reach_from(sv, marked@.to_set(), -1) == marked@.to_set());
    }
    marked
}

/// The names of the models the operation changes: nothing more, and
/// nothing less.
fn op_model_names(op: &Operation) -> (r: Vec<String>)
    ensures
        forall|k: int| 0 <= k < r@.len() ==> op_touches_model(op@, #[trigger] r@[k]@),
        forall|m: Seq<char>| op_touches_model(op@, m) ==> (exists|k: int|
            0 <= k < r@.len() && (#[trigger] r@[k])@ == m),
{
    let mut r: Vec<String> = Vec::new();
    match op {
        Operation::CreateModel { name, .. } => {
            r.push(name.clone());
            assert(r@[0]@ == name@);
        },
        Operation::RenameModel { old, new } => {
            r.push(old.clone());
            r.push(new.clone());
            assert(r@[0]@ == old@ && r@[1]@ == new@);
        },
        Operation::DeleteModel { name } => {
            r.push(name.clone());
            assert(r@[0]@ == name@);
        },
        Operation::CreateField { model, .. } => {
            r.push(model.clone());
            assert(r@[0]@ == model@);
        },
        Operation::RenameField { table_name, .. } => {
            r.push(table_name.clone());
            assert(r@[0]@ == table_name@);
        },
        Operation::DeleteField { model, .. } => {
            r.push(model.clone());
            assert(r@[0]@ == model@);
        },
        Operation::RawSQL { .. } => {},
    }
    r
}

/// Whether the vector holds the name.
pub open spec fn holds_name(names: Seq<String>, m: Seq<char>) -> bool {
    exists|k: int| 0 <= k < names.len() && (#[trigger] names[k])@ == m
}

/// [`side_touches`] with its witness restricted to positions below `bound`.
pub open spec fn side_touches_before(
    s: Seq<MigrationV>,
    ha: u16,
    hb: u16,
    m: Seq<char>,
    bound: int,
) -> bool {
    exists|p: int|
        0 <= p < bound && p < s.len() && reachable_ids(s, ha).contains(#[trigger] s[p].id)
            && !reachable_ids(s, hb).contains(s[p].id) && migration_touches(s[p], m)
}

/// [`migration_touches`] with its witness restricted to operations below
/// `bound`.
pub open spec fn migration_touches_before(mv: MigrationV, m: Seq<char>, bound: int) -> bool {
    exists|k: int|
        0 <= k < bound && k < mv.operations.len() && op_touches_model(
            #[trigger] mv.operations[k],
            m,
        )
}

/// The model names changed by migrations on `ha`'s side of the fork with
/// `hb`: every returned name is a witness of [`side_touches`], and every
/// model some side migration changes is in the list.
fn side_model_names(store: &MigrationStore, ha: u16, hb: u16) -> (r: Vec<String>)
    ensures
        forall|k: int| 0 <= k < r@.len() ==> side_touches(store@, ha, hb, (#[trigger] r@[k])@),
        forall|m: Seq<char>| side_touches(store@, ha, hb, m) ==> holds_name(r@, m),
{
    let ghost sv = store@;
    let reach_a = reach_vec(store, ha);
    let reach_b = reach_vec(store, hb);
    let migs = store.migrations();
    let n = migs.len();
    let mut names: Vec<String> = Vec::new();
    let mut p: usize = 0;
    while p < n
        invariant
            sv == store@,
            crate::model::migration_views(migs@) == sv,
            n == sv.len(),
            p <= n,
            reach_a@.to_set() == reachable_ids(sv, ha),
            reach_b@.to_set() == reachable_ids(sv, hb),
            forall|k: int| 0 <= k < names@.len() ==> side_touches(sv, ha, hb, (#[trigger] names@[
                k
            ])@),
            forall|m: Seq<char>| side_touches_before(sv, ha, hb, m, p as int) ==> holds_name(
                names@,
                m,
            ),
        decreases n - p,
    {
        let in_a = holds_id(&reach_a, migs[p].id);
        let in_b = holds_id(&reach_b, migs[p].id);
        if in_a && !in_b {
            let ops = &migs[p].operations;
            let mut j: usize = 0;
            while j < ops.len()
                invariant
                    sv == store@,
                    crate::model::migration_views(migs@) == sv,
                    n == sv.len(),
                    p < n,
                    j <= ops@.len(),
                    crate::model::operation_views(ops@) == sv[p as int].operations,
                    reachable_ids(sv, ha).contains(sv[p as int].id),
                    !reachable_ids(sv, hb).contains(sv[p as int].id),
                    forall|k: int| 0 <= k < names@.len() ==> side_touches(sv, ha, hb, (
                    #[trigger] names@[k])@),
                    forall|m: Seq<char>| side_touches_before(sv, ha, hb, m, p as int)
                        ==> holds_name(names@, m),
                    forall|m: Seq<char>| migration_touches_before(sv[p as int], m, j as int)
                        ==> holds_name(names@, m),
                decreases ops@.len() - j,
            {
                let mut more = op_model_names(&ops[j]);
                let ghost opv = crate::model::operation_views(ops@)[j as int];
                assert(ops@[j as int]@ == opv);
                while more.len() > 0
                    invariant
                        sv == store@,
                        p < n,
                        n == sv.len(),
                        reachable_ids(sv, ha).contains(sv[p as int].id),
                        !reachable_ids(sv, hb).contains(sv[p as int].id),
                        0 <= j < sv[p as int].operations.len(),
                        opv == sv[p as int].operations[j as int],
                        forall|k: int| 0 <= k < more@.len() ==> op_touches_model(
                            opv,
                            (#[trigger] more@[k])@,
                        ),
                        forall|m: Seq<char>| op_touches_model(opv, m) ==> (holds_name(names@, m)
                            || holds_name(more@, m)),
                        forall|k: int| 0 <= k < names@.len() ==> side_touches(sv, ha, hb, (
                        #[trigger] names@[k])@),
                        forall|m: Seq<char>| side_touches_before(sv, ha, hb, m, p as int)
                            ==> holds_name(names@, m),
                        forall|m: Seq<char>| migration_touches_before(sv[p as int], m, j as int)
                            ==> holds_name(names@, m),
                    decreases more@.len(),
                {
                    let ghost more_before = more@;
                    let ghost names_before = names@;
                    let name = more.pop().unwrap();
                    proof {
                        assert(more@ =~= more_before.take(more_before.len() - 1));
                        assert(op_touches_model(opv, name@));
                        assert(migration_touches(sv[p as int], name@));
                        assert(side_touches(sv, ha, hb, name@));
                    }
                    names.push(name);
                    proof {
                        assert(names@[names@.len() - 1]@ == name@);
                        assert(forall|k: int|
                            0 <= k < names_before.len() ==> names@[k] == names_before[k]);
                        assert forall|m: Seq<char>| op_touches_model(opv, m) implies (holds_name(
                            names@,
                            m,
                        ) || holds_name(more@, m)) by {
                            if holds_name(names_before, m) {
                                let k = choose|k: int|
                                    0 <= k < names_before.len() && (#[trigger] names_before[k])@
                                        == m;
                                assert(names@[k]@ == m);
                            } else if holds_name(more_before, m) {
                                let k = choose|k: int|
                                    0 <= k < more_before.len() && (#[trigger] more_before[k])@
                                        == m;
                                if k < more_before.len() - 1 {
                                    assert(more@[k]@ == m);
                                } else {
                                    assert(names@[names@.len() - 1]@ == m);
                                }
                            }
                        }
                        assert forall|m: Seq<char>|
                            side_touches_before(sv, ha, hb, m, p as int) implies holds_name(
                            names@,
                            m,
                        ) by {
                            assert(holds_name(names_before, m));
                            let k = choose|k: int|
                                0 <= k < names_before.len() && (#[trigger] names_before[k])@ == m;
                            assert(names@[k]@ == m);
                        }
                        assert forall|m: Seq<char>|
                            migration_touches_before(sv[p as int], m, j as int) implies holds_name(
                            names@,
                            m,
                        ) by {
                            assert(holds_name(names_before, m));
                            let k = choose|k: int|
                                0 <= k < names_before.len() && (#[trigger] names_before[k])@ == m;
                            assert(names@[k]@ == m);
                        }
                    }
                }
                proof {
                    assert forall|m: Seq<char>|
                        migration_touches_before(sv[p as int], m, j + 1 as int) implies holds_name(
                        names@,
                        m,
                    ) by {
                        let k = choose|k: int|
                            0 <= k < j + 1 && k < sv[p as int].operations.len() && op_touches_model(
                                #[trigger] sv[p as int].operations[k],
                                m,
                            );
                        if k == j as int {
                            assert(op_touches_model(opv, m));
                            assert(!holds_name(more@, m));
                        }
                    }
                }
                j += 1;
            }
            proof {
                assert forall|m: Seq<char>|
                    side_touches_before(sv, ha, hb, m, p + 1 as int) implies holds_name(
                    names@,
                    m,
                ) by {
                    let w = choose|w: int|
                        0 <= w < p + 1 && w < sv.len() && reachable_ids(sv, ha).contains(
                            #[trigger] sv[w].id,
                        ) && !reachable_ids(sv, hb).contains(sv[w].id) && migration_touches(
                            sv[w],
                            m,
                        );
                    if w == p as int {
                        assert(migration_touches_before(sv[p as int], m, ops@.len() as int));
                    } else {
                        assert(side_touches_before(sv, ha, hb, m, p as int));
                    }
                }
            }
        } else {
            proof {
                assert forall|m: Seq<char>|
                    side_touches_before(sv, ha, hb, m, p + 1 as int) implies holds_name(
                    names@,
                    m,
                ) by {
                    let w = choose|w: int|
                        0 <= w < p + 1 && w < sv.len() && reachable_ids(sv, ha).contains(
                            #[trigger] sv[w].id,
                        ) && !reachable_ids(sv, hb).contains(sv[w].id) && migration_touches(
                            sv[w],
                            m,
                        );
                    assert(w != p as int);
                    assert(side_touches_before(sv, ha, hb, m, p as int));
                }
            }
        }
        p += 1;
    }
    proof {
        assert forall|m: Seq<char>| side_touches(sv, ha, hb, m) implies holds_name(names@, m) by {
            assert(side_touches_before(sv, ha, hb, m, n as int));
        }
    }
    names
}

/// Unify the store's heads.
///
/// With at most one head there is nothing to do. Otherwise, if two heads'
/// branches both change one model, that is a conflict: it is reported and
/// nothing is produced, for a human to resolve. Otherwise the result is a
/// new migration whose predecessors are exactly the heads, carrying no
/// operations, under the next free id; the store itself is left untouched.
pub fn merge(store: &MigrationStore, name: String) -> (r: Result<
    Option<Migration>,
    MergeConflictError,
>)
    requires
        store.wf(),
        store@.len() == 0 || store@.last().id < u16::MAX,
    ensures
        (r is Ok && r->Ok_0 is None) <==> heads_of(store@).len() <= 1,
        r is Ok && r->Ok_0 is Some ==> ({
            let m = r->Ok_0->0;
            heads_of(store@).len() >= 2 && m@.id == store@.last().id + 1 && m@.name == name@
                && m@.predecessors == heads_of(store@) && m@.operations.len() == 0
        }),
        r is Ok ==> (forall|x: int, y: int|
            0 <= x < y < heads_of(store@).len() ==> !heads_conflict(
                store@,
                heads_of(store@)[x],
                heads_of(store@)[y],
            )),
        r is Err ==> heads_of(store@).len() >= 2 && heads_conflict(
            store@,
            r->Err_0.head_a,
            r->Err_0.head_b,
        ) && (exists|x: int, y: int|
            0 <= x < y < heads_of(store@).len() && #[trigger] heads_of(store@)[x]
                == r->Err_0.head_a && #[trigger] heads_of(store@)[y] == r->Err_0.head_b),
{
    let ghost sv = store@;
    let heads = collect_heads(store);
    if heads.len() <= 1 {
        return Ok(None);
    }
    let mut a: usize = 0;
    while a < heads.len()
        invariant
            sv == store@,
            heads@ == heads_of(sv),
            heads@.len() >= 2,
            forall|x: int, y: int|
                0 <= x < y < heads@.len() && x < a as int ==> !heads_conflict(
                    sv,
                    heads@[x],
                    heads@[y],
                ),
        decreases heads@.len() - a,
    {
        let mut b: usize = a + 1;
        while b < heads.len()
            invariant
                sv == store@,
                heads@ == heads_of(sv),
                heads@.len() >= 2,
                a < heads@.len(),
                a < b,
                forall|x: int, y: int|
                    0 <= x < y < heads@.len() && x < a as int ==> !heads_conflict(
                        sv,
                        heads@[x],
                        heads@[y],
                    ),
                forall|y: int|
                    (a as int) < y < (b as int) ==> !heads_conflict(sv, heads@[a as int], heads@[y]),
            decreases heads@.len() - b,
        {
            let names_a = side_model_names(store, heads[a], heads[b]);
            let names_b = side_model_names(store, heads[b], heads[a]);
            let mut i: usize = 0;
            while i < names_a.len()
                invariant
                    sv == store@,
                    heads@ == heads_of(sv),
                    a < b,
                    a < heads@.len(),
                    b < heads@.len(),
                    i <= names_a@.len(),
                    forall|k: int| 0 <= k < names_a@.len() ==> side_touches(
                        sv,
                        heads@[a as int],
                        heads@[b as int],
                        (#[trigger] names_a@[k])@,
                    ),
                    forall|m: Seq<char>| side_touches(sv, heads@[a as int], heads@[b as int], m)
                        ==> holds_name(names_a@, m),
                    forall|k: int| 0 <= k < names_b@.len() ==> side_touches(
                        sv,
                        heads@[b as int],
                        heads@[a as int],
                        (#[trigger] names_b@[k])@,
                    ),
                    forall|m: Seq<char>| side_touches(sv, heads@[b as int], heads@[a as int], m)
                        ==> holds_name(names_b@, m),
                    forall|i2: int, j2: int|
                        0 <= i2 < i as int && 0 <= j2 < names_b@.len() ==> (#[trigger] names_a@[
                            i2
                        ])@ != (#[trigger] names_b@[j2])@,
                decreases names_a@.len() - i,
            {
                let mut j: usize = 0;
                while j < names_b.len()
                    invariant
                        sv == store@,
                        heads@ == heads_of(sv),
                        a < b,
                        a < heads@.len(),
                        b < heads@.len(),
                        i < names_a@.len(),
                        j <= names_b@.len(),
                        forall|k: int| 0 <= k < names_a@.len() ==> side_touches(
                            sv,
                            heads@[a as int],
                            heads@[b as int],
                            (#[trigger] names_a@[k])@,
                        ),
                        forall|k: int| 0 <= k < names_b@.len() ==> side_touches(
                            sv,
                            heads@[b as int],
                            heads@[a as int],
                            (#[trigger] names_b@[k])@,
                        ),
                        forall|j2: int| 0 <= j2 < j as int ==> names_a@[i as int]@ != (
                        #[trigger] names_b@[j2])@,
                    decreases names_b@.len() - j,
                {
                    if names_a[i] == names_b[j] {
                        proof {
                            assert(side_touches(sv, heads@[a as int], heads@[b as int], names_a@[
                                i as int
                            ]@));
                            assert(side_touches(sv, heads@[b as int], heads@[a as int], names_a@[
                                i as int
                            ]@));
                            assert(heads_conflict(sv, heads@[a as int], heads@[b as int]));
                            assert(heads_of(store@)[a as int] == heads@[a as int]);
                            assert(heads_of(store@)[b as int] == heads@[b as int]);
                        }
                        return Err(
                            MergeConflictError {
                                model: names_a[i].clone(),
                                head_a: heads[a],
                                head_b: heads[b],
                            },
                        );
                    }
                    j += 1;
                }
                i += 1;
            }
            proof {
                // the two sides share no model name, so the pair of heads
                // cannot conflict
                assert(!heads_conflict(sv, heads@[a as int], heads@[b as int])) by {
                    if heads_conflict(sv, heads@[a as int], heads@[b as int]) {
                        let m = choose|m: Seq<char>|
                            side_touches(sv, heads@[a as int], heads@[b as int], m)
                                && side_touches(sv, heads@[b as int], heads@[a as int], m);
                        assert(holds_name(names_a@, m));
                        assert(holds_name(names_b@, m));
                        let i2 = choose|i2: int|
                            0 <= i2 < names_a@.len() && (#[trigger] names_a@[i2])@ == m;
                        let j2 = choose|j2: int|
                            0 <= j2 < names_b@.len() && (#[trigger] names_b@[j2])@ == m;
                        assert(names_a@[i2]@ != names_b@[j2]@);
                    }
                }
            }
            b += 1;
        }
        proof {
            assert forall|x: int, y: int|
                0 <= x < y < heads@.len() && x < a + 1 implies !heads_conflict(
                sv,
                heads@[x],
                heads@[y],
            ) by {
                if x == a as int {
                    assert(!heads_conflict(sv, heads@[a as int], heads@[y]));
                }
            }
        }
        a += 1;
    }
    let next = store.next_free_id();
    let m = Migration { id: next, name, predecessors: heads, operations: Vec::new() };
    proof {
        assert(crate::model::operation_views(m.operations@) =~= Seq::<OperationV>::empty());
    }
    Ok(Some(m))
}

/// The store's head ids, ascending.
fn collect_heads(store: &MigrationStore) -> (r: Vec<u16>)
    ensures
        r@ == heads_of(store@),
{
    let ghost sv = store@;
    let migs = store.migrations();
    let n = migs.len();
    let mut heads: Vec<u16> = Vec::new();
    let mut i: usize = 0;
    while i < n
        invariant
            sv == store@,
            crate::model::migration_views(migs@) == sv,
            n == sv.len(),
            i <= n,
            heads@ + heads_from(sv, i as int) == heads_of(sv),
        decreases n - i,
    {
        let ghost before = heads@;
        let mut referenced = false;
        let mut j: usize = 0;
        while j < n && !referenced
            invariant
                sv == store@,
                crate::model::migration_views(migs@) == sv,
                n == sv.len(),
                i < n,
                j <= n,
                !referenced ==> (forall|t: int, k: int|
                    0 <= t < j && 0 <= k < sv[t].predecessors.len() ==> #[trigger] sv[
                        t
                    ].predecessors[k] != sv[i as int].id),
                referenced ==> !is_head(sv, i as int),
            decreases n - j,
        {
            let preds = &migs[j].predecessors;
            let mut k: usize = 0;
            while k < preds.len() && !referenced
                invariant
                    sv == store@,
                    crate::model::migration_views(migs@) == sv,
                    n == sv.len(),
                    i < n,
                    j < n,
                    k <= preds@.len(),
                    preds@ == sv[j as int].predecessors,
                    !referenced ==> (forall|t: int| 0 <= t < k ==> sv[j as int].predecessors[t]
                        != sv[i as int].id),
                    referenced ==> !is_head(sv, i as int),
                decreases preds@.len() - k,
            {
                if preds[k] == migs[i].id {
                    referenced = true;
                    proof {
                        assert(sv[j as int].predecessors[k as int] == sv[i as int].id);
                        assert(!is_head(sv, i as int));
                    }
                }
                k += 1;
            }
            if !referenced {
                proof {
                    assert(forall|t: int| 0 <= t < preds@.len() ==> sv[j as int].predecessors[t]
                        != sv[i as int].id);
                }
            }
            j += 1;
        }
        if !referenced {
            assert(is_head(sv, i as int));
            heads.push(migs[i].id);
            proof {
                assert(heads_from(sv, i as int) =~= seq![sv[i as int].id] + heads_from(
                    sv,
                    i + 1 as int,
                ));
                assert(before.push(sv[i as int].id) + heads_from(sv, i + 1 as int) =~= before + (
                seq![sv[i as int].id] + heads_from(sv, i + 1 as int)));
            }
        } else {
            proof {
                assert(heads_from(sv, i as int) == heads_from(sv, i + 1 as int));
            }
        }
        i += 1;
    }
    proof {
        assert(heads_from(sv, n as int) =~= Seq::<u16>::empty());
        assert(heads@ + Seq::<u16>::empty() =~= heads@);
    }
    heads
}

} // verus!
