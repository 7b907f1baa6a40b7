//! The migration application engine, as a pure state machine.
//!
//! A run resolves the last applied migration id against the store, computes
//! the ordered plan of unapplied migrations, and applies them one by one,
//! recording each success in the tracking table. The functions here decide;
//! the caller performs the database work and feeds the outcomes back.

use vstd::prelude::*;

use crate::builder::{
    create_table_call, create_table_sql, migration_sql, migration_statements,
    tracking_insert_call, tracking_insert_stmt, BuildError, Statement, StatementV,
    statement_views,
};
use crate::model::{
    clone_ids, migration_ids, strictly_increasing, ColumnType, Field, FieldAnnotation, FieldV,
    Migration, MigrationV,
};
use crate::store::MigrationStore;
use vstd::string::*;

verus! {

/// Options for running migrations.
pub struct MigrateOptions {
    /// Directory the migrations live in
    pub migration_dir: String,
    /// Path to the database configuration file
    pub database_config: String,
    /// Log all SQL statements
    pub log_queries: bool,
    /// Apply only up to (inclusive) the given id, if set
    pub apply_until: Option<u16>,
}

/// The tracking table and the migration store have diverged: the last
/// applied id is unknown to the store. Fatal; the engine mutates nothing.
#[derive(Clone, Copy, Debug, PartialEq, Eq, Structural)]
pub struct ConsistencyError {
    /// The id the tracking table records as last applied
    pub last_applied: u16,
}

/// Whether a migration id is due in a run that starts after `last_applied`
/// and stops at `apply_until` (inclusive), if set.
pub open spec fn candidate(id: u16, last_applied: Option<u16>, apply_until: Option<u16>) -> bool {
    (match last_applied {
        Some(x) => id > x,
        None => true,
    }) && (match apply_until {
        Some(x) => id <= x,
        None => true,
    })
}

/// The ids due in a run, in store order.
pub open spec fn candidates_of(
    ids: Seq<u16>,
    last_applied: Option<u16>,
    apply_until: Option<u16>,
) -> Seq<u16> {
    ids.filter(|id: u16| candidate(id, last_applied, apply_until))
}

/// The migration id of the most recently inserted tracking row, if any.
pub open spec fn last_row(t: Seq<u16>) -> Option<u16> {
    if t.len() == 0 {
        None
    } else {
        Some(t.last())
    }
}

/// What a run plan holds: exactly the stored ids that are due, in order,
/// and ascending whenever the ids themselves ascend.
pub proof fn lemma_candidates_props(ids: Seq<u16>, last_applied: Option<u16>, apply_until: Option<u16>)
    ensures
        forall|x: u16| #[trigger] candidates_of(ids, last_applied, apply_until).contains(x) <==> (
        ids.contains(x) && candidate(x, last_applied, apply_until)),
        strictly_increasing(ids) ==> strictly_increasing(
            candidates_of(ids, last_applied, apply_until),
        ),
    decreases ids.len(),
{
    reveal(Seq::filter);
    let c = candidates_of(ids, last_applied, apply_until);
    if ids.len() == 0 {
        assert(c.len() == 0);
        assert(forall|x: u16| !ids.contains(x));
        assert(forall|x: u16| !c.contains(x));
    } else {
        let pre = ids.drop_last();
        let a = ids.last();
        lemma_candidates_props(pre, last_applied, apply_until);
        let cp = candidates_of(pre, last_applied, apply_until);
        assert(ids =~= pre.push(a));
        assert(forall|x: u16| ids.contains(x) <==> (pre.contains(x) || x == a)) by {
            assert(forall|i: int| 0 <= i < pre.len() ==> ids[i] == pre[i]);
            assert(ids[ids.len() - 1] == a);
            assert(forall|x: u16| pre.contains(x) ==> ids.contains(x));
            assert(forall|x: u16| #[trigger] ids.contains(x) && x != a ==> pre.contains(x)) by {
                assert(forall|i: int|
                    0 <= i < ids.len() && ids[i] != a ==> 0 <= i < pre.len() && pre[i] == ids[i]);
            }
        }
        if candidate(a, last_applied, apply_until) {
            assert(c == cp.push(a));
            assert(forall|x: u16| c.contains(x) <==> (cp.contains(x) || x == a)) by {
                assert(forall|i: int| 0 <= i < cp.len() ==> c[i] == cp[i]);
                assert(c[c.len() - 1] == a);
                assert(forall|x: u16| #[trigger] c.contains(x) && x != a ==> cp.contains(x)) by {
                    assert(forall|i: int|
                        0 <= i < c.len() && c[i] != a ==> 0 <= i < cp.len() && cp[i] == c[i]);
                }
            }
            if strictly_increasing(ids) {
                assert(strictly_increasing(pre)) by {
                    assert(forall|i: int| 0 <= i < pre.len() ==> pre[i] == ids[i]);
                }
                assert(strictly_increasing(c)) by {
                    assert(forall|i: int| 0 <= i < cp.len() ==> c[i] == cp[i]);
                    assert forall|i: int| 0 <= i < cp.len() implies cp[i] < a by {
                        assert(cp.contains(cp[i]));
                        assert(pre.contains(cp[i]));
                        let j = choose|j: int| 0 <= j < pre.len() && pre[j] == cp[i];
                        assert(pre[j] == ids[j] && ids[j] < ids[ids.len() - 1]);
                    }
                }
            }
        } else {
            assert(c == cp);
        }
    }
}

/// Membership in a concatenation is membership in either part.
proof fn lemma_add_contains(a: Seq<u16>, b: Seq<u16>)
    ensures
        forall|x: u16| #[trigger] (a + b).contains(x) <==> (a.contains(x) || b.contains(x)),
{
    assert(forall|i: int| 0 <= i < a.len() ==> (a + b)[i] == a[i]);
    assert(forall|i: int| 0 <= i < b.len() ==> (a + b)[i + a.len()] == b[i]);
    assert(forall|x: u16| a.contains(x) ==> (a + b).contains(x));
    assert(forall|x: u16| b.contains(x) ==> (a + b).contains(x)) by {
        assert(forall|i: int|
            0 <= i < b.len() ==> (a + b)[i + a.len()] == b[i] && 0 <= i + a.len() < (a + b).len());
    }
    assert(forall|x: u16| #[trigger] (a + b).contains(x) ==> (a.contains(x) || b.contains(x))) by {
        assert(forall|i: int|
            a.len() <= i < (a + b).len() ==> (a + b)[i] == b[i - a.len()]);
    }
}

/// Two ascending id sequences with the same members are the same sequence.
proof fn lemma_increasing_same_members(a: Seq<u16>, b: Seq<u16>)
    requires
        strictly_increasing(a),
        strictly_increasing(b),
        forall|x: u16| a.contains(x) <==> b.contains(x),
    ensures
        a == b,
    decreases a.len(),
{
    if a.len() == 0 {
        if b.len() > 0 {
            assert(b.contains(b[0]));
            assert(a.contains(b[0]));
        }
        assert(a =~= b);
    } else {
        assert(a.contains(a.last()));
        assert(b.contains(a.last()));
        if b.len() == 0 {
            assert(!b.contains(a.last()));
        }
        assert(b.len() > 0);
        // the two last elements coincide: each is a member of the other,
        // and an ascending sequence tops out at its last element
        assert(forall|i: int| 0 <= i < a.len() ==> a[i] <= a.last());
        assert(forall|i: int| 0 <= i < b.len() ==> b[i] <= b.last());
        assert(a.last() <= b.last()) by {
            let j = choose|j: int| 0 <= j < b.len() && b[j] == a.last();
            assert(b[j] <= b.last());
        }
        assert(b.last() <= a.last()) by {
            assert(b[b.len() - 1] == b.last());
            assert(b.contains(b.last()));
            assert(a.contains(b.last()));
            let j = choose|j: int| 0 <= j < a.len() && a[j] == b.last();
            assert(a[j] <= a.last());
        }
        let ap = a.drop_last();
        let bp = b.drop_last();
        assert(forall|i: int| 0 <= i < ap.len() ==> ap[i] == a[i]);
        assert(forall|i: int| 0 <= i < bp.len() ==> bp[i] == b[i]);
        assert(forall|x: u16| ap.contains(x) <==> bp.contains(x)) by {
            assert(forall|x: u16| #[trigger] ap.contains(x) ==> a.contains(x) && x < a.last());
            assert(forall|x: u16| #[trigger] bp.contains(x) ==> b.contains(x) && x < b.last());
            assert(forall|x: u16| #[trigger] a.contains(x) && x != a.last() ==> ap.contains(x)) by {
                assert(forall|i: int|
                    0 <= i < a.len() && a[i] != a.last() ==> 0 <= i < ap.len() && ap[i] == a[i]);
            }
            assert(forall|x: u16| #[trigger] b.contains(x) && x != b.last() ==> bp.contains(x)) by {
                assert(forall|i: int|
                    0 <= i < b.len() && b[i] != b.last() ==> 0 <= i < bp.len() && bp[i] == b[i]);
            }
        }
        assert(strictly_increasing(ap) && strictly_increasing(bp));
        lemma_increasing_same_members(ap, bp);
        assert(a =~= ap.push(a.last()));
        assert(b =~= bp.push(b.last()));
    }
}

impl MigrationStore {
    /// The ids of the store's migrations, ascending.
    pub fn ids(&self) -> (r: Vec<u16>)
        ensures
            r@ == migration_ids(self@),
    {
        let ms = self.migrations();
        let mut r: Vec<u16> = Vec::new();
        let mut i: usize = 0;
        while i < ms.len()
            invariant
                crate::model::migration_views(ms@) == self@,
                i <= self@.len(),
                ms@.len() == self@.len(),
                r@ == migration_ids(self@).take(i as int),
            decreases self@.len() - i,
        {
            r.push(ms[i].id);
            proof {
                assert(migration_ids(self@).take(i + 1 as int) =~= migration_ids(self@).take(
                    i as int,
                ).push(migration_ids(self@)[i as int]));
            }
            i += 1;
        }
        proof {
            assert(migration_ids(self@).take(self@.len() as int) =~= migration_ids(self@));
        }
        r
    }
}

/// Resolve the last applied id against the store and compute the ordered
/// plan for a run: every stored id after `last_applied` and, if a bound is
/// given, at most `apply_until`. A last applied id the store does not know
/// is a fatal divergence: no plan is produced and nothing may be executed.
pub fn plan_run(store: &MigrationStore, last_applied: Option<u16>, apply_until: Option<u16>) -> (r:
    Result<Vec<u16>, ConsistencyError>)
    ensures
        r is Ok <==> (match last_applied {
            Some(x) => migration_ids(store@).contains(x),
            None => true,
        }),
        (match r {
            Ok(plan) => plan@ == candidates_of(migration_ids(store@), last_applied, apply_until),
            Err(e) => last_applied == Some(e.last_applied) && !migration_ids(store@).contains(
                e.last_applied,
            ),
        }),
{
    match last_applied {
        Some(x) => {
            if !store.contains_id(x) {
                return Err(ConsistencyError { last_applied: x });
            }
        },
        None => {},
    }
    let ids = store.ids();
    let ghost idv = migration_ids(store@);
    let mut plan: Vec<u16> = Vec::new();
    let mut i: usize = 0;
    proof {
        reveal(Seq::filter);
        assert(idv.take(0) =~= Seq::<u16>::empty());
        assert(candidates_of(idv.take(0), last_applied, apply_until) =~= Seq::<u16>::empty());
    }
    while i < ids.len()
        invariant
            ids@ == idv,
            i <= idv.len(),
            plan@ == candidates_of(idv.take(i as int), last_applied, apply_until),
        decreases idv.len() - i,
    {
        let id = ids[i];
        let due = (match last_applied {
            Some(x) => id > x,
            None => true,
        }) && (match apply_until {
            Some(x) => id <= x,
            None => true,
        });
        if due {
            plan.push(id);
        }
        proof {
            reveal(Seq::filter);
            let pre = idv.take(i as int);
            let post = idv.take(i + 1 as int);
            assert(post.drop_last() =~= pre);
            assert(post.last() == idv[i as int]);
            assert(due == candidate(id, last_applied, apply_until));
        }
        i += 1;
    }
    proof {
        assert(idv.take(idv.len() as int) =~= idv);
    }
    Ok(plan)
}

/// What one run of the engine did, in terms of the tracking table model.
#[derive(Debug, PartialEq)]
pub struct RunReport {
    /// The ids applied by this run, in the order they were applied
    pub applied: Vec<u16>,
    /// The tracking table rows after the run: the rows it started with,
    /// followed by one new row per applied migration
    pub tracking: Vec<u16>,
    /// The id whose statements failed, if the run was aborted
    pub failure: Option<u16>,
}

/// The reference model of one engine run over the tracking table.
///
/// `tracking` holds the applied migration ids in insertion order; its last
/// row resolves the run. `failing` names a migration whose statements fail
/// when executed: the run applies the plan in order, stops at the failing
/// migration without recording it, and records every earlier success. A
/// run that completes its whole plan reports no failure; an empty plan is
/// the distinct no-op outcome.
pub fn simulate_run(
    store: &MigrationStore,
    tracking: &Vec<u16>,
    apply_until: Option<u16>,
    failing: Option<u16>,
) -> (r: Result<RunReport, ConsistencyError>)
    ensures
        r is Ok <==> (match last_row(tracking@) {
            Some(x) => migration_ids(store@).contains(x),
            None => true,
        }),
        (match r {
            Ok(rep) => {
                let plan = candidates_of(migration_ids(store@), last_row(tracking@), apply_until);
                rep.tracking@ == tracking@ + rep.applied@ && (match rep.failure {
                    None => rep.applied@ == plan && (match failing {
                        Some(f) => !plan.contains(f),
                        None => true,
                    }),
                    Some(f) => failing == Some(f) && rep.applied@.len() < plan.len()
                        && rep.applied@ == plan.take(rep.applied@.len() as int) && plan[
                        rep.applied@.len() as int
                    ] == f,
                })
            },
            Err(e) => last_row(tracking@) == Some(e.last_applied) && !migration_ids(
                store@,
            ).contains(e.last_applied),
        }),
{
    let last_applied: Option<u16> = if tracking.len() == 0 {
        None
    } else {
        Some(tracking[tracking.len() - 1])
    };
    let plan = match plan_run(store, last_applied, apply_until) {
        Ok(p) => p,
        Err(e) => {
            return Err(e);
        },
    };
    let mut applied: Vec<u16> = Vec::new();
    let mut new_tracking = clone_ids(tracking);
    let mut failure: Option<u16> = None;
    let mut i: usize = 0;
    while i < plan.len() && failure.is_none()
        invariant
            i <= plan@.len(),
            applied@ == plan@.take(i as int),
            new_tracking@ == tracking@ + applied@,
            failure is None ==> (match failing {
                Some(f) => forall|t: int| 0 <= t < i ==> plan@[t] != f,
                None => true,
            }),
            failure is Some ==> (failing == failure && i < plan@.len() && plan@[i as int]
                == failure.unwrap()),
        decreases plan@.len() - i, (if failure is None { 1int } else { 0int }),
    {
        let id = plan[i];
        let hit = match failing {
            Some(f) => f == id,
            None => false,
        };
        if hit {
            failure = Some(id);
        } else {
            applied.push(id);
            new_tracking.push(id);
            proof {
                assert(plan@.take(i + 1 as int) =~= plan@.take(i as int).push(plan@[i as int]));
                assert(tracking@ + applied@ =~= new_tracking@);
            }
            i += 1;
        }
    }
    proof {
        if failure is None {
            assert(plan@.take(plan@.len() as int) =~= plan@);
            if failing is Some {
                let f = failing.unwrap();
                assert(forall|t: int| 0 <= t < plan@.len() ==> plan@[t] != f);
            }
        }
    }
    Ok(RunReport { applied, tracking: new_tracking, failure })
}

/// After a successful unbounded run, a second run has nothing to do: its
/// plan is empty.
pub proof fn lemma_apply_twice_noop(ids: Seq<u16>, t: Seq<u16>)
    requires
        strictly_increasing(ids),
    ensures
        candidates_of(ids, last_row(t + candidates_of(ids, last_row(t), None)), None).len() == 0,
{
    let plan = candidates_of(ids, last_row(t), None);
    lemma_candidates_props(ids, last_row(t), None);
    if plan.len() == 0 {
        assert(t + plan =~= t);
    } else {
        let t1 = t + plan;
        assert(t1.len() > 0 && t1.last() == plan.last());
        let m = plan.last();
        assert(plan.contains(m));
        assert(last_row(t1) == Some(m));
        let plan2 = candidates_of(ids, Some(m), None);
        lemma_candidates_props(ids, Some(m), None);
        if plan2.len() > 0 {
            let x = plan2[0];
            assert(plan2.contains(x));
            assert(ids.contains(x) && x > m);
            assert(candidate(x, last_row(t), None)) by {
                assert(candidate(m, last_row(t), None));
            }
            assert(plan.contains(x));
            let j = choose|j: int| 0 <= j < plan.len() && plan[j] == x;
            assert(forall|i: int| 0 <= i < plan.len() ==> plan[i] <= plan.last());
            assert(x <= m);
        }
    }
}

/// After a successful unbounded run the tracking table still ascends, and
/// its rows are exactly the old rows plus one row for every stored id that
/// was due: the ids above the previous last row, a contiguous range up to
/// the last id applied.
pub proof fn lemma_tracking_after_run(ids: Seq<u16>, t: Seq<u16>)
    requires
        strictly_increasing(ids),
        strictly_increasing(t),
    ensures
        strictly_increasing(t + candidates_of(ids, last_row(t), None)),
        forall|x: u16|
            #[trigger] (t + candidates_of(ids, last_row(t), None)).contains(x) <==> (t.contains(x)
                || (ids.contains(x) && candidate(x, last_row(t), None))),
        candidates_of(ids, last_row(t), None).len() > 0 ==> (forall|x: u16|
            #[trigger] candidates_of(ids, last_row(t), None).contains(x) <==> (ids.contains(x)
                && candidate(x, last_row(t), None) && x <= candidates_of(
                ids,
                last_row(t),
                None,
            ).last())),
{
    let plan = candidates_of(ids, last_row(t), None);
    lemma_candidates_props(ids, last_row(t), None);
    lemma_add_contains(t, plan);
    assert(strictly_increasing(t + plan)) by {
        assert(forall|i: int| 0 <= i < t.len() ==> (t + plan)[i] == t[i]);
        assert(forall|i: int| t.len() <= i < (t + plan).len() ==> (t + plan)[i] == plan[i - t.len()]);
        if t.len() > 0 {
            assert(forall|i: int| 0 <= i < t.len() ==> t[i] <= t.last());
            assert(forall|j: int| 0 <= j < plan.len() ==> plan[j] > t.last()) by {
                assert(forall|j: int|
                    0 <= j < plan.len() ==> plan.contains(#[trigger] plan[j]));
            }
        }
    }
    if plan.len() > 0 {
        assert(forall|x: u16| plan.contains(x) ==> x <= plan.last()) by {
            assert(forall|i: int| 0 <= i < plan.len() ==> plan[i] <= plan.last());
        }
        assert(plan.contains(plan.last()));
    }
}

/// A run bounded by `apply_until = x` followed by an unbounded run applies,
/// between them, exactly what one unbounded run would have applied: the
/// first plan takes the due ids up to the bound, the second the rest.
pub proof fn lemma_bounded_then_unbounded(ids: Seq<u16>, t: Seq<u16>, x: u16)
    requires
        strictly_increasing(ids),
    ensures
        candidates_of(ids, last_row(t), Some(x)) + candidates_of(
            ids,
            last_row(t + candidates_of(ids, last_row(t), Some(x))),
            None,
        ) == candidates_of(ids, last_row(t), None),
{
    let p1 = candidates_of(ids, last_row(t), Some(x));
    let t1 = t + p1;
    let p2 = candidates_of(ids, last_row(t1), None);
    let full = candidates_of(ids, last_row(t), None);
    lemma_candidates_props(ids, last_row(t), Some(x));
    lemma_candidates_props(ids, last_row(t), None);
    lemma_candidates_props(ids, last_row(t1), None);
    lemma_add_contains(p1, p2);
    if p1.len() == 0 {
        assert(t1 =~= t);
        assert(p2 == candidates_of(ids, last_row(t), None));
        // nothing was due up to the bound, so the unbounded run does it all
        assert(forall|y: u16| #[trigger] full.contains(y) ==> p2.contains(y)) by {
            assert(forall|y: u16|
                ids.contains(y) && candidate(y, last_row(t), Some(x)) ==> p1.contains(y));
        }
        assert(p1 + p2 =~= p2);
        assert(forall|y: u16| p2.contains(y) ==> full.contains(y));
        lemma_increasing_same_members(p2, full);
    } else {
        let m = p1.last();
        assert(p1.contains(m));
        assert(t1.len() > 0 && t1.last() == m);
        assert(last_row(t1) == Some(m));
        // every id in the first plan stays at or below the bound, which the
        // second plan picks up from
        assert(forall|i: int| 0 <= i < p1.len() ==> p1[i] <= m);
        assert(strictly_increasing(p1 + p2)) by {
            assert(forall|i: int| 0 <= i < p1.len() ==> (p1 + p2)[i] == p1[i]);
            assert(forall|i: int|
                p1.len() <= i < (p1 + p2).len() ==> (p1 + p2)[i] == p2[i - p1.len()]);
            assert(forall|j: int| 0 <= j < p2.len() ==> p2[j] > m) by {
                assert(forall|j: int| 0 <= j < p2.len() ==> p2.contains(#[trigger] p2[j]));
            }
            assert(forall|i: int| 0 <= i < p1.len() ==> p1.contains(#[trigger] p1[i]));
        }
        assert(forall|y: u16| (p1 + p2).contains(y) ==> full.contains(y)) by {
            assert(candidate(m, last_row(t), Some(x)));
        }
        assert(forall|y: u16| #[trigger] full.contains(y) ==> (p1 + p2).contains(y)) by {
            assert(forall|y: u16|
                #[trigger] ids.contains(y) && candidate(y, last_row(t), None) && y <= x
                    ==> p1.contains(y));
            assert(forall|y: u16|
                #[trigger] ids.contains(y) && candidate(y, last_row(t), None) && y > x
                    ==> p2.contains(y)) by {
                assert(m <= x);
            }
        }
        lemma_increasing_same_members(p1 + p2, full);
    }
}


/// A consistent tracking table holds no row for an id that is still due:
/// its rows ascend, so every row is at most the last one, and a due id
/// lies strictly above the last row. This discharges the premise of
/// [`lemma_failure_leaves_no_row`] for any run that reached the failing
/// migration through a plan.
pub proof fn lemma_due_id_has_no_row(t: Seq<u16>, id: u16)
    requires
        strictly_increasing(t),
        (match last_row(t) {
            Some(x) => id > x,
            None => true,
        }),
    ensures
        !t.contains(id),
{
    if t.contains(id) {
        let j = choose|j: int| 0 <= j < t.len() && t[j] == id;
        assert(forall|i: int| 0 <= i < t.len() ==> t[i] <= t.last());
        assert(t[j] <= t.last());
    }
}

/// A failure on the plan's `k`-th migration leaves the tracking table
/// without a row for it, while every migration applied before it keeps its
/// row.
pub proof fn lemma_failure_leaves_no_row(t: Seq<u16>, plan: Seq<u16>, k: int)
    requires
        strictly_increasing(plan),
        0 <= k < plan.len(),
        !t.contains(plan[k]),
    ensures
        !(t + plan.take(k)).contains(plan[k]),
        forall|j: int| 0 <= j < k ==> (t + plan.take(k)).contains(plan[j]),
{
    lemma_add_contains(t, plan.take(k));
    assert(forall|i: int| 0 <= i < k ==> plan.take(k)[i] == plan[i]);
    assert(forall|j: int| 0 <= j < k ==> plan.take(k).contains(plan[j]));
    if plan.take(k).contains(plan[k]) {
        let i = choose|i: int| 0 <= i < k && plan.take(k)[i] == plan[k];
        assert(plan[i] == plan[k] && i < k);
    }
}

/// The columns of the tracking table: an auto-incremented key, a timestamp
/// kept current on write, and the applied migration's id.
pub open spec fn tracking_columns() -> Seq<FieldV> {
    seq![
        FieldV {
            name: "id"@,
            db_type: ColumnType::Int64,
            annotations: seq![FieldAnnotation::PrimaryKey, FieldAnnotation::AutoIncrement],
        },
        FieldV {
            name: "updated_at"@,
            db_type: ColumnType::DateTime,
            annotations: seq![FieldAnnotation::AutoUpdateTime],
        },
        FieldV {
            name: "migration_id"@,
            db_type: ColumnType::Int32,
            annotations: seq![FieldAnnotation::NotNull],
        },
    ]
}

/// The statements that create the tracking table if it does not exist yet.
/// Idempotent at the SQL level; the caller runs them in one transaction of
/// their own before anything else.
pub fn tracking_table_statements(d: crate::model::Dialect, table: &str) -> (r: Result<
    Vec<Statement>,
    BuildError,
>)
    ensures
        r is Ok <==> create_table_sql(d, table@, tracking_columns()) is Ok,
        r is Ok ==> statement_views(r->Ok_0@) == create_table_sql(
            d,
            table@,
            tracking_columns(),
        )->Ok_0,
        r is Err ==> r->Err_0.message@ == create_table_sql(d, table@, tracking_columns())->Err_0,
{
    let mut columns: Vec<Field> = Vec::new();
    let mut a1: Vec<FieldAnnotation> = Vec::new();
    a1.push(FieldAnnotation::PrimaryKey);
    a1.push(FieldAnnotation::AutoIncrement);
    columns.push(Field { name: String::from_str("id"), db_type: ColumnType::Int64, annotations: a1 });
    let mut a2: Vec<FieldAnnotation> = Vec::new();
    a2.push(FieldAnnotation::AutoUpdateTime);
    columns.push(
        Field {
            name: String::from_str("updated_at"),
            db_type: ColumnType::DateTime,
            annotations: a2,
        },
    );
    let mut a3: Vec<FieldAnnotation> = Vec::new();
    a3.push(FieldAnnotation::NotNull);
    columns.push(
        Field {
            name: String::from_str("migration_id"),
            db_type: ColumnType::Int32,
            annotations: a3,
        },
    );
    proof {
        assert(crate::model::field_views(columns@) =~= tracking_columns()) by {
            assert(columns@[0]@.annotations =~= seq![
                FieldAnnotation::PrimaryKey,
                FieldAnnotation::AutoIncrement,
            ]);
            assert(columns@[1]@.annotations =~= seq![FieldAnnotation::AutoUpdateTime]);
            assert(columns@[2]@.annotations =~= seq![FieldAnnotation::NotNull]);
        }
    }
    match create_table_call(d, table, &columns) {
        Ok(v) => Ok(v),
        Err(message) => Err(BuildError { message }),
    }
}

/// The query that reads the migration id of the most recently inserted
/// tracking row: newest row first, one row only. An empty result means no
/// migration has ever been applied.
pub fn last_migration_query(table: &str) -> (r: String)
    ensures
        r@ == "SELECT migration_id FROM "@ + table@ + " ORDER BY id DESC LIMIT 1;"@,
{
    let q = String::from_str("SELECT migration_id FROM ");
    let q = q.concat(table);
    let q = q.concat(" ORDER BY id DESC LIMIT 1;");
    q
}

/// Everything one migration needs executed inside its transaction: its own
/// statements in order, and the tracking row insert that commits together
/// with them.
pub fn apply_migration_statements(
    d: crate::model::Dialect,
    m: &Migration,
    table: &str,
) -> (r: Result<(Vec<Statement>, Statement), BuildError>)
    ensures
        r is Ok <==> migration_sql(d, m@.operations) is Ok,
        r is Ok ==> statement_views(r->Ok_0.0@) == migration_sql(d, m@.operations)->Ok_0
            && r->Ok_0.1@ == tracking_insert_stmt(d, table@, m.id),
        r is Err ==> r->Err_0.message@ == migration_sql(d, m@.operations)->Err_0,
{
    let stmts = match migration_statements(d, m) {
        Ok(v) => v,
        Err(e) => {
            return Err(e);
        },
    };
    let insert = tracking_insert_call(d, table, m.id);
    Ok((stmts, insert))
}

} // verus!
