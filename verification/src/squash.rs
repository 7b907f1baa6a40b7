//! The squash engine: collapse a contiguous id range of migrations into one
//! equivalent migration, folding opposing operations away.
//!
//! Folding rules: a field created and later deleted inside the range cancels;
//! a model created and later deleted inside the range cancels; field
//! operations on a model created inside the range fold into that model's
//! field list; renames compose transitively. Everything else keeps its
//! relative order.

use vstd::prelude::*;

use crate::model::{
    clone_ids, clone_operations, migration_ids, migration_views, operation_views, FieldV,
    Migration, MigrationV, Operation, OperationV,
};
use crate::store::{store_wf, MigrationStore};

verus! {

/// A pattern an earlier operation in the folded output may match.
#[derive(Debug, PartialEq)]
pub enum Probe {
    /// A CreateModel of the given model
    CreateModel {
        /// The model name
        model: String,
    },
    /// A CreateField of the given field on the given model
    CreateField {
        /// The model name
        model: String,
        /// The field name
        field: String,
    },
    /// A RenameField on the given table whose new name is the given one
    RenameFieldTo {
        /// The table name
        table: String,
        /// The name the earlier rename ended at
        name: String,
    },
    /// A RenameModel whose new name is the given one
    RenameModelTo {
        /// The name the earlier rename ended at
        name: String,
    },
}

/// The mathematical value of a [`Probe`].
pub ghost enum ProbeV {
    /// A CreateModel of the given model
    CreateModel { model: Seq<char> },
    /// A CreateField of the given field on the given model
    CreateField { model: Seq<char>, field: Seq<char> },
    /// A RenameField on the given table whose new name is the given one
    RenameFieldTo { table: Seq<char>, name: Seq<char> },
    /// A RenameModel whose new name is the given one
    RenameModelTo { name: Seq<char> },
}

impl View for Probe {
    type V = ProbeV;

    open spec fn view(&self) -> ProbeV {
        match self {
            Probe::CreateModel { model } => ProbeV::CreateModel { model: model@ },
            Probe::CreateField { model, field } => ProbeV::CreateField {
                model: model@,
                field: field@,
            },
            Probe::RenameFieldTo { table, name } => ProbeV::RenameFieldTo {
                table: table@,
                name: name@,
            },
            Probe::RenameModelTo { name } => ProbeV::RenameModelTo { name: name@ },
        }
    }
}

/// Whether an operation matches a probe.
pub open spec fn op_matches(op: OperationV, probe: ProbeV) -> bool {
    match probe {
        ProbeV::CreateModel { model } => (match op {
            OperationV::CreateModel { name, .. } => name == model,
            _ => false,
        }),
        ProbeV::CreateField { model, field } => (match op {
            OperationV::CreateField { model: m, field: f } => m == model && f.name == field,
            _ => false,
        }),
        ProbeV::RenameFieldTo { table, name } => (match op {
            OperationV::RenameField { table_name, old: _, new } => table_name == table && new
                == name,
            _ => false,
        }),
        ProbeV::RenameModelTo { name } => (match op {
            OperationV::RenameModel { old: _, new } => new == name,
            _ => false,
        }),
    }
}

/// The first position in `s` matching the probe, or -1.
pub open spec fn find_match(s: Seq<OperationV>, probe: ProbeV) -> int
    decreases s.len(),
{
    if s.len() == 0 {
        -1
    } else if op_matches(s[0], probe) {
        0
    } else {
        let r = find_match(s.drop_first(), probe);
        if r < 0 {
            -1
        } else {
            r + 1
        }
    }
}

/// What [`find_match`] returns: the first matching position, or -1 when
/// nothing matches.
pub proof fn lemma_find_match(s: Seq<OperationV>, probe: ProbeV)
    ensures
        find_match(s, probe) == -1 ==> (forall|i: int| 0 <= i < s.len() ==> !op_matches(
            s[i],
            probe,
        )),
        find_match(s, probe) >= 0 ==> 0 <= find_match(s, probe) < s.len() && op_matches(
            s[find_match(s, probe)],
            probe,
        ) && (forall|i: int| 0 <= i < find_match(s, probe) ==> !op_matches(s[i], probe)),
    decreases s.len(),
{
    if s.len() > 0 {
        let rest = s.drop_first();
        lemma_find_match(rest, probe);
        assert(forall|i: int| 0 <= i < rest.len() ==> rest[i] == s[i + 1]);
        if !op_matches(s[0], probe) {
            let r = find_match(rest, probe);
            if r < 0 {
                assert forall|i: int| 0 <= i < s.len() implies !op_matches(s[i], probe) by {
                    if i > 0 {
                        assert(!op_matches(rest[i - 1], probe));
                    }
                }
            }
            if r >= 0 {
                assert(find_match(s, probe) == r + 1);
                assert(rest[r] == s[r + 1]);
                assert forall|i: int| 0 <= i < r + 1 implies !op_matches(s[i], probe) by {
                    if i > 0 {
                        assert(!op_matches(rest[i - 1], probe));
                    }
                }
            }
        }
    }
}

/// Find the first operation matching the probe.
fn find_match_exec(v: &Vec<Operation>, probe: &Probe) -> (r: Option<usize>)
    ensures
        (match r {
            Some(i) => find_match(operation_views(v@), probe@) == i,
            None => find_match(operation_views(v@), probe@) == -1,
        }),
{
    let ghost s = operation_views(v@);
    let mut i: usize = 0;
    proof {
        lemma_find_match(s, probe@);
    }
    while i < v.len()
        invariant
            s == operation_views(v@),
            i <= s.len(),
            forall|t: int| 0 <= t < i ==> !op_matches(s[t], probe@),
            (find_match(s, probe@) == -1 && (forall|t: int| 0 <= t < s.len() ==> !op_matches(
                s[t],
                probe@,
            ))) || (0 <= find_match(s, probe@) < s.len() && op_matches(
                s[find_match(s, probe@)],
                probe@,
            ) && (forall|t: int| 0 <= t < find_match(s, probe@) ==> !op_matches(s[t], probe@))),
        decreases s.len() - i,
    {
        let hit = matches_exec(&v[i], probe);
        if hit {
            proof {
                if find_match(s, probe@) != i as int {
                    if find_match(s, probe@) == -1 {
                        assert(!op_matches(s[i as int], probe@));
                    } else if find_match(s, probe@) < i as int {
                        assert(!op_matches(s[find_match(s, probe@)], probe@));
                    } else {
                        assert(!op_matches(s[i as int], probe@));
                    }
                }
            }
            return Some(i);
        }
        i += 1;
    }
    proof {
        if find_match(s, probe@) >= 0 {
            assert(!op_matches(s[find_match(s, probe@)], probe@));
        }
    }
    None
}

/// Whether one operation matches the probe.
fn matches_exec(op: &Operation, probe: &Probe) -> (r: bool)
    ensures
        r == op_matches(op@, probe@),
{
    match probe {
        Probe::CreateModel { model } => (match op {
            Operation::CreateModel { name, .. } => *name == *model,
            _ => false,
        }),
        Probe::CreateField { model, field } => (match op {
            Operation::CreateField { model: m, field: f } => *m == *model && f.name == *field,
            _ => false,
        }),
        Probe::RenameFieldTo { table, name } => (match op {
            Operation::RenameField { table_name, old: _, new } => *table_name == *table && *new
                == *name,
            _ => false,
        }),
        Probe::RenameModelTo { name } => (match op {
            Operation::RenameModel { old: _, new } => *new == *name,
            _ => false,
        }),
    }
}

/// One folding step: how one incoming operation lands on the already folded
/// output.
pub open spec fn fold_step(acc: Seq<OperationV>, op: OperationV) -> Seq<OperationV> {
    match op {
        OperationV::CreateField { model, field } => {
            let c = find_match(acc, ProbeV::CreateModel { model });
            if c >= 0 {
                acc.update(c, push_field(acc[c], field))
            } else {
                acc.push(op)
            }
        },
        OperationV::DeleteField { model, name } => {
            let cf = find_match(acc, ProbeV::CreateField { model, field: name });
            if cf >= 0 {
                acc.remove(cf)
            } else {
                let c = find_match(acc, ProbeV::CreateModel { model });
                if c >= 0 && model_has_field(acc[c], name) {
                    acc.update(c, drop_field(acc[c], name))
                } else {
                    acc.push(op)
                }
            }
        },
        OperationV::RenameField { table_name, old, new } => {
            let r = find_match(acc, ProbeV::RenameFieldTo { table: table_name, name: old });
            if r >= 0 {
                acc.update(r, compose_field_rename(acc[r], new))
            } else {
                let c = find_match(acc, ProbeV::CreateModel { model: table_name });
                if c >= 0 && model_has_field(acc[c], old) {
                    acc.update(c, rename_field_in(acc[c], old, new))
                } else {
                    acc.push(op)
                }
            }
        },
        OperationV::DeleteModel { name } => {
            let c = find_match(acc, ProbeV::CreateModel { model: name });
            if c >= 0 {
                acc.remove(c)
            } else {
                acc.push(op)
            }
        },
        OperationV::RenameModel { old, new } => {
            let r = find_match(acc, ProbeV::RenameModelTo { name: old });
            if r >= 0 {
                acc.update(r, compose_model_rename(acc[r], new))
            } else {
                acc.push(op)
            }
        },
        _ => acc.push(op),
    }
}

/// A CreateModel with one more field at the end.
pub open spec fn push_field(op: OperationV, field: FieldV) -> OperationV {
    match op {
        OperationV::CreateModel { name, fields } => OperationV::CreateModel {
            name,
            fields: fields.push(field),
        },
        _ => op,
    }
}

/// Whether a CreateModel holds a field of the given name.
pub open spec fn model_has_field(op: OperationV, field: Seq<char>) -> bool {
    match op {
        OperationV::CreateModel { name: _, fields } => (exists|k: int|
            0 <= k < fields.len() && fields[k].name == field),
        _ => false,
    }
}

/// A CreateModel without the fields of the given name.
pub open spec fn drop_field(op: OperationV, field: Seq<char>) -> OperationV {
    match op {
        OperationV::CreateModel { name, fields } => OperationV::CreateModel {
            name,
            fields: fields.filter(|f: FieldV| f.name != field),
        },
        _ => op,
    }
}

/// A CreateModel with one field renamed.
pub open spec fn rename_field_in(op: OperationV, old: Seq<char>, new: Seq<char>) -> OperationV {
    match op {
        OperationV::CreateModel { name, fields } => OperationV::CreateModel {
            name,
            fields: fields.map_values(
                |f: FieldV|
                    if f.name == old {
                        FieldV { name: new, db_type: f.db_type, annotations: f.annotations }
                    } else {
                        f
                    },
            ),
        },
        _ => op,
    }
}

/// An earlier field rename extended to end at the given name.
pub open spec fn compose_field_rename(op: OperationV, new: Seq<char>) -> OperationV {
    match op {
        OperationV::RenameField { table_name, old, new: _ } => OperationV::RenameField {
            table_name,
            old,
            new,
        },
        _ => op,
    }
}

/// An earlier model rename extended to end at the given name.
pub open spec fn compose_model_rename(op: OperationV, new: Seq<char>) -> OperationV {
    match op {
        OperationV::RenameModel { old, new: _ } => OperationV::RenameModel { old, new },
        _ => op,
    }
}

/// The folded output of the operations starting at `i`, landing on `acc`.
pub open spec fn squash_from(acc: Seq<OperationV>, ops: Seq<OperationV>, i: int) -> Seq<OperationV>
    decreases ops.len() - i,
{
    if i < 0 || i >= ops.len() {
        acc
    } else {
        squash_from(fold_step(acc, ops[i]), ops, i + 1)
    }
}

/// The folded form of an operation sequence: every rule of the squash
/// engine applied left to right over an empty output.
pub open spec fn squash_ops(ops: Seq<OperationV>) -> Seq<OperationV> {
    squash_from(Seq::empty(), ops, 0)
}

/// Whether a CreateModel operation holds a field of the given name.
fn model_has_field_exec(op: &Operation, field: &String) -> (r: bool)
    ensures
        r == model_has_field(op@, field@),
{
    match op {
        Operation::CreateModel { name, fields } => {
            let mut k: usize = 0;
            while k < fields.len()
                invariant
                    op@ matches OperationV::CreateModel { .. },
                    op@->CreateModel_fields == crate::model::field_views(fields@),
                    k <= fields@.len(),
                    forall|t: int| 0 <= t < k ==> crate::model::field_views(fields@)[t].name
                        != field@,
                decreases fields@.len() - k,
            {
                if fields[k].name == *field {
                    proof {
                        let fv = crate::model::field_views(fields@);
                        assert(op@->CreateModel_fields == fv);
                        assert(fv[k as int].name == field@);
                        assert(model_has_field(op@, field@));
                    }
                    return true;
                }
                k += 1;
            }
            proof {
                let fv = crate::model::field_views(fields@);
                assert(op@->CreateModel_fields == fv);
                assert(forall|t: int| 0 <= t < fv.len() ==> fv[t].name != field@);
            }
            false
        },
        _ => false,
    }
}

/// Apply one folding step to the output being built.
fn fold_step_exec(acc: &mut Vec<Operation>, op: Operation)
    ensures
        operation_views(final(acc)@) == fold_step(operation_views(old(acc)@), op@),
{
    let ghost av = operation_views(acc@);
    let ghost opv = op@;
    match op {
        Operation::CreateField { model, field } => {
            let probe = Probe::CreateModel { model: model.clone() };
            match find_match_exec(acc, &probe) {
                Some(c) => {
                    proof {
                        lemma_find_match(av, probe@);
                    }
                    let old_op = acc.remove(c);
                    let new_op = match old_op {
                        Operation::CreateModel { name, fields } => {
                            let mut fields = fields;
                            let ghost fv = crate::model::field_views(fields@);
                            fields.push(field);
                            proof {
                                assert(crate::model::field_views(fields@) =~= fv.push(
                                    opv->CreateField_field,
                                ));
                            }
                            Operation::CreateModel { name, fields }
                        },
                        other => other,
                    };
                    assert(new_op@ == push_field(av[c as int], opv->CreateField_field));
                    acc.insert(c, new_op);
                    proof {
                        assert(operation_views(acc@) =~= av.update(
                            c as int,
                            push_field(av[c as int], opv->CreateField_field),
                        ));
                    }
                },
                None => {
                    acc.push(Operation::CreateField { model, field });
                    proof {
                        assert(operation_views(acc@) =~= av.push(opv));
                    }
                },
            }
        },
        Operation::DeleteField { model, name } => {
            let probe = Probe::CreateField { model: model.clone(), field: name.clone() };
            match find_match_exec(acc, &probe) {
                Some(cf) => {
                    proof {
                        lemma_find_match(av, probe@);
                    }
                    acc.remove(cf);
                    proof {
                        assert(operation_views(acc@) =~= av.remove(cf as int));
                    }
                },
                None => {
                    let cm = Probe::CreateModel { model: model.clone() };
                    let hit = match find_match_exec(acc, &cm) {
                        Some(c) => {
                            proof {
                                lemma_find_match(av, cm@);
                            }
                            if model_has_field_exec(&acc[c], &name) {
                                Some(c)
                            } else {
                                None
                            }
                        },
                        None => None,
                    };
                    match hit {
                        Some(c) => {
                            proof {
                                lemma_find_match(av, cm@);
                            }
                            let old_op = acc.remove(c);
                            let new_op = remove_field_exec(old_op, &name);
                            assert(new_op@ == drop_field(av[c as int], name@));
                            acc.insert(c, new_op);
                            proof {
                                assert(operation_views(acc@) =~= av.update(
                                    c as int,
                                    drop_field(av[c as int], name@),
                                ));
                            }
                        },
                        None => {
                            acc.push(Operation::DeleteField { model, name });
                            proof {
                                assert(operation_views(acc@) =~= av.push(opv));
                            }
                        },
                    }
                },
            }
        },
        Operation::RenameField { table_name, old, new } => {
            let probe = Probe::RenameFieldTo { table: table_name.clone(), name: old.clone() };
            match find_match_exec(acc, &probe) {
                Some(r) => {
                    proof {
                        lemma_find_match(av, probe@);
                    }
                    let old_op = acc.remove(r);
                    let new_op = match old_op {
                        Operation::RenameField { table_name: t, old: o, new: _ } => {
                            Operation::RenameField { table_name: t, old: o, new: new }
                        },
                        other => other,
                    };
                    assert(new_op@ == compose_field_rename(av[r as int], new@));
                    acc.insert(r, new_op);
                    proof {
                        assert(operation_views(acc@) =~= av.update(
                            r as int,
                            compose_field_rename(av[r as int], new@),
                        ));
                    }
                },
                None => {
                    let cm = Probe::CreateModel { model: table_name.clone() };
                    let hit = match find_match_exec(acc, &cm) {
                        Some(c) => {
                            proof {
                                lemma_find_match(av, cm@);
                            }
                            if model_has_field_exec(&acc[c], &old) {
                                Some(c)
                            } else {
                                None
                            }
                        },
                        None => None,
                    };
                    match hit {
                        Some(c) => {
                            proof {
                                lemma_find_match(av, cm@);
                            }
                            let old_op = acc.remove(c);
                            let new_op = rename_field_exec(old_op, &old, &new);
                            assert(new_op@ == rename_field_in(av[c as int], old@, new@));
                            acc.insert(c, new_op);
                            proof {
                                assert(operation_views(acc@) =~= av.update(
                                    c as int,
                                    rename_field_in(av[c as int], old@, new@),
                                ));
                            }
                        },
                        None => {
                            acc.push(Operation::RenameField { table_name, old, new });
                            proof {
                                assert(operation_views(acc@) =~= av.push(opv));
                            }
                        },
                    }
                },
            }
        },
        Operation::DeleteModel { name } => {
            let probe = Probe::CreateModel { model: name.clone() };
            match find_match_exec(acc, &probe) {
                Some(c) => {
                    proof {
                        lemma_find_match(av, probe@);
                    }
                    acc.remove(c);
                    proof {
                        assert(operation_views(acc@) =~= av.remove(c as int));
                    }
                },
                None => {
                    acc.push(Operation::DeleteModel { name });
                    proof {
                        assert(operation_views(acc@) =~= av.push(opv));
                    }
                },
            }
        },
        Operation::RenameModel { old, new } => {
            let probe = Probe::RenameModelTo { name: old.clone() };
            match find_match_exec(acc, &probe) {
                Some(r) => {
                    proof {
                        lemma_find_match(av, probe@);
                    }
                    let old_op = acc.remove(r);
                    let new_op = match old_op {
                        Operation::RenameModel { old: o, new: _ } => Operation::RenameModel {
                            old: o,
                            new: new,
                        },
                        other => other,
                    };
                    assert(new_op@ == compose_model_rename(av[r as int], new@));
                    acc.insert(r, new_op);
                    proof {
                        assert(operation_views(acc@) =~= av.update(
                            r as int,
                            compose_model_rename(av[r as int], new@),
                        ));
                    }
                },
                None => {
                    acc.push(Operation::RenameModel { old, new });
                    proof {
                        assert(operation_views(acc@) =~= av.push(opv));
                    }
                },
            }
        },
        other => {
            acc.push(other);
            proof {
                assert(operation_views(acc@) =~= av.push(opv));
            }
        },
    }
}

/// A CreateModel without the fields of the given name; other operations
/// pass through unchanged.
fn remove_field_exec(op: Operation, field: &String) -> (r: Operation)
    ensures
        r@ == drop_field(op@, field@),
{
    match op {
        Operation::CreateModel { name, fields } => {
            let ghost fv = crate::model::field_views(fields@);
            let mut kept: Vec<crate::model::Field> = Vec::new();
            let mut k: usize = 0;
            proof {
                reveal(Seq::filter);
                assert(crate::model::field_views(kept@) =~= fv.take(0).filter(
                    |f: FieldV| f.name != field@,
                ));
            }
            while k < fields.len()
                invariant
                    fv == crate::model::field_views(fields@),
                    k <= fv.len(),
                    crate::model::field_views(kept@) == fv.take(k as int).filter(
                        |f: FieldV| f.name != field@,
                    ),
                decreases fv.len() - k,
            {
                let keep = !(fields[k].name == *field);
                let ghost before = crate::model::field_views(kept@);
                if keep {
                    kept.push(fields[k].clone());
                }
                proof {
                    reveal(Seq::filter);
                    let pre = fv.take(k as int);
                    let post = fv.take(k + 1 as int);
                    assert(post.drop_last() =~= pre);
                    assert(post.last() == fv[k as int]);
                    if keep {
                        assert(crate::model::field_views(kept@) =~= before.push(fv[k as int]));
                    }
                }
                k += 1;
            }
            proof {
                assert(fv.take(fv.len() as int) =~= fv);
            }
            Operation::CreateModel { name, fields: kept }
        },
        other => other,
    }
}

/// A CreateModel with one field renamed; other operations pass through
/// unchanged.
fn rename_field_exec(op: Operation, old: &String, new: &String) -> (r: Operation)
    ensures
        r@ == rename_field_in(op@, old@, new@),
{
    match op {
        Operation::CreateModel { name, fields } => {
            let ghost fv = crate::model::field_views(fields@);
            let ghost mapped = fv.map_values(
                |f: FieldV|
                    if f.name == old@ {
                        FieldV { name: new@, db_type: f.db_type, annotations: f.annotations }
                    } else {
                        f
                    },
            );
            let mut out: Vec<crate::model::Field> = Vec::new();
            let mut k: usize = 0;
            while k < fields.len()
                invariant
                    fv == crate::model::field_views(fields@),
                    mapped == fv.map_values(
                        |f: FieldV|
                            if f.name == old@ {
                                FieldV {
                                    name: new@,
                                    db_type: f.db_type,
                                    annotations: f.annotations,
                                }
                            } else {
                                f
                            },
                    ),
                    k <= fv.len(),
                    crate::model::field_views(out@) == mapped.take(k as int),
                decreases fv.len() - k,
            {
                let f = fields[k].clone();
                let ghost before = crate::model::field_views(out@);
                if f.name == *old {
                    out.push(
                        crate::model::Field {
                            name: new.clone(),
                            db_type: f.db_type,
                            annotations: f.annotations,
                        },
                    );
                } else {
                    out.push(f);
                }
                proof {
                    assert(crate::model::field_views(out@) =~= before.push(mapped[k as int]));
                    assert(mapped.take(k + 1 as int) =~= mapped.take(k as int).push(
                        mapped[k as int],
                    ));
                }
                k += 1;
            }
            proof {
                assert(mapped.take(mapped.len() as int) =~= mapped);
            }
            Operation::CreateModel { name, fields: out }
        },
        other => other,
    }
}

/// Fold a whole operation sequence, left to right.
pub fn squash_operations(ops: &Vec<Operation>) -> (r: Vec<Operation>)
    ensures
        operation_views(r@) == squash_ops(operation_views(ops@)),
{
    let ghost opv = operation_views(ops@);
    let mut acc: Vec<Operation> = Vec::new();
    let mut i: usize = 0;
    proof {
        assert(operation_views(acc@) =~= Seq::<OperationV>::empty());
    }
    while i < ops.len()
        invariant
            opv == operation_views(ops@),
            i <= opv.len(),
            squash_from(operation_views(acc@), opv, i as int) == squash_ops(opv),
        decreases opv.len() - i,
    {
        let op = ops[i].clone();
        assert(op@ == opv[i as int]);
        fold_step_exec(&mut acc, op);
        i += 1;
    }
    acc
}

/// Why a squash range is invalid. Nothing is mutated when one of these is
/// reported.
#[derive(Clone, Copy, Debug, PartialEq, Eq, Structural)]
pub enum SquashRangeError {
    /// The first id is greater than the last
    EmptyRange {
        /// The requested first id
        first: u16,
        /// The requested last id
        last: u16,
    },
    /// An endpoint id is not in the store
    MissingEndpoint {
        /// The id that is missing
        id: u16,
    },
    /// A migration outside the range builds on a mid-range migration
    ExternalDependent {
        /// The id of the outside migration
        id: u16,
        /// The mid-range predecessor it builds on
        predecessor: u16,
    },
}

/// The position of the migration with the given id, or -1.
pub open spec fn id_position(s: Seq<MigrationV>, id: u16) -> int
    decreases s.len(),
{
    if s.len() == 0 {
        -1
    } else if s[0].id == id {
        0
    } else {
        let r = id_position(s.drop_first(), id);
        if r < 0 {
            -1
        } else {
            r + 1
        }
    }
}

/// What [`id_position`] returns: the first position bearing the id, or -1
/// when no migration bears it.
pub proof fn lemma_id_position(s: Seq<MigrationV>, id: u16)
    ensures
        id_position(s, id) == -1 ==> (forall|i: int| 0 <= i < s.len() ==> s[i].id != id),
        id_position(s, id) >= 0 ==> 0 <= id_position(s, id) < s.len() && s[id_position(s, id)].id
            == id && (forall|i: int| 0 <= i < id_position(s, id) ==> s[i].id != id),
    decreases s.len(),
{
    if s.len() > 0 {
        let rest = s.drop_first();
        lemma_id_position(rest, id);
        assert(forall|i: int| 0 <= i < rest.len() ==> rest[i] == s[i + 1]);
        if s[0].id != id {
            let r = id_position(rest, id);
            if r < 0 {
                assert forall|i: int| 0 <= i < s.len() implies s[i].id != id by {
                    if i > 0 {
                        assert(rest[i - 1].id != id);
                    }
                }
            } else {
                assert(id_position(s, id) == r + 1);
                assert(rest[r] == s[r + 1]);
                assert forall|i: int| 0 <= i < r + 1 implies s[i].id != id by {
                    if i > 0 {
                        assert(rest[i - 1].id != id);
                    }
                }
            }
        }
    }
}

/// The concatenated operations of the migrations at positions `i` up to
/// (excluding) `end`.
pub open spec fn range_ops(s: Seq<MigrationV>, i: int, end: int) -> Seq<OperationV>
    decreases end - i,
{
    if i < 0 || i >= end || i >= s.len() {
        Seq::empty()
    } else {
        s[i].operations + range_ops(s, i + 1, end)
    }
}

/// Extending a range of operations by one migration appends its operations.
proof fn lemma_range_ops_snoc(s: Seq<MigrationV>, lo: int, i: int)
    requires
        0 <= lo <= i < s.len(),
    ensures
        range_ops(s, lo, i + 1) == range_ops(s, lo, i) + s[i].operations,
    decreases i - lo,
{
    if lo == i {
        assert(range_ops(s, i + 1, i + 1) =~= Seq::<OperationV>::empty());
        assert(range_ops(s, lo, i) =~= Seq::<OperationV>::empty());
        assert(s[i].operations + Seq::<OperationV>::empty() =~= s[i].operations);
        assert(Seq::<OperationV>::empty() + s[i].operations =~= s[i].operations);
    } else {
        lemma_range_ops_snoc(s, lo + 1, i);
        assert(s[lo].operations + (range_ops(s, lo + 1, i) + s[i].operations) =~= (
        s[lo].operations + range_ops(s, lo + 1, i)) + s[i].operations);
    }
}

/// A valid squash range: ordered endpoints, both present, and no migration
/// outside the range building on a mid-range migration.
pub open spec fn squash_range_valid(s: Seq<MigrationV>, first: u16, last: u16) -> bool {
    first <= last && migration_ids(s).contains(first) && migration_ids(s).contains(last) && (
    forall|p: int, k: int|
        0 <= p < s.len() && !(first <= s[p].id <= last) && 0 <= k < s[p].predecessors.len()
            ==> !(first <= #[trigger] s[p].predecessors[k] < last))
}

/// The migration a squash produces: the range's last id and position, the
/// first ranged migration's predecessors, and the folded operations of the
/// whole range.
pub open spec fn squashed_migration(s: Seq<MigrationV>, first: u16, last: u16, name: Seq<char>) -> MigrationV {
    let lo = id_position(s, first);
    let hi = id_position(s, last);
    MigrationV {
        id: last,
        name: name,
        predecessors: s[lo].predecessors,
        operations: squash_ops(range_ops(s, lo, hi + 1)),
    }
}

/// What a squash returns on success.
#[derive(Debug)]
pub struct SquashOutcome {
    /// The store with the range replaced by the one squashed migration
    pub store: MigrationStore,
    /// The ids of the migrations that were squashed away, ascending; their
    /// files are to be removed, and the squashed migration written under
    /// its own id
    pub removed: Vec<u16>,
}

/// Collapse the contiguous id range `[first, last]` of the store into one
/// synthetic migration carrying the folded operations of the range.
///
/// The new migration takes the range's last id, so migrations after the
/// range still build on a present id; it takes over the predecessors of
/// the range's first migration. Nothing is reported removed and nothing
/// changes when the range is invalid. Squash never touches a database.
pub fn squash(store: &MigrationStore, first: u16, last: u16, name: String) -> (r: Result<
    SquashOutcome,
    SquashRangeError,
>)
    requires
        store.wf(),
    ensures
        r is Ok <==> squash_range_valid(store@, first, last),
        r is Ok ==> ({
            let lo = id_position(store@, first);
            let hi = id_position(store@, last);
            let out = r->Ok_0;
            out.store@ == store@.take(lo) + seq![squashed_migration(store@, first, last, name@)]
                + store@.skip(hi + 1) && out.store.wf() && out.removed@ == migration_ids(
                store@,
            ).subrange(lo, hi + 1)
        }),
{
    let ghost sv = store@;
    proof {
        lemma_id_position(sv, first);
        lemma_id_position(sv, last);
    }
    if first > last {
        return Err(SquashRangeError::EmptyRange { first, last });
    }
    let migs = store.migrations();
    let n = migs.len();
    let ghost lo_s = id_position(sv, first);
    let ghost hi_s = id_position(sv, last);

    let mut lo: usize = 0;
    let mut lo_found = false;
    let mut i: usize = 0;
    while i < n
        invariant
            migration_views(migs@) == sv,
            n == sv.len(),
            i <= n,
            lo_s == id_position(sv, first),
            lo_found ==> (lo < n && sv[lo as int].id == first && lo_s == lo),
            !lo_found ==> (forall|t: int| 0 <= t < i ==> sv[t].id != first),
            lo_found || (lo_s == -1 || lo_s >= i),
        decreases n - i,
    {
        proof {
            lemma_id_position(sv, first);
        }
        if !lo_found && migs[i].id == first {
            lo = i;
            lo_found = true;
            proof {
                lemma_id_position(sv, first);
                if lo_s != i as int {
                    if lo_s == -1 {
                        assert(sv[i as int].id != first);
                    } else if lo_s < i as int {
                        assert(sv[lo_s].id != first);
                    } else {
                        assert(sv[i as int].id != first);
                    }
                }
            }
        }
        i += 1;
    }
    if !lo_found {
        proof {
            if lo_s >= 0 {
                assert(sv[lo_s].id != first);
            }
            assert(!migration_ids(sv).contains(first)) by {
                if migration_ids(sv).contains(first) {
                    let w = choose|w: int|
                        0 <= w < migration_ids(sv).len() && migration_ids(sv)[w] == first;
                    assert(sv[w].id != first);
                }
            }
        }
        return Err(SquashRangeError::MissingEndpoint { id: first });
    }
    let mut hi: usize = 0;
    let mut hi_found = false;
    let mut i: usize = 0;
    while i < n
        invariant
            migration_views(migs@) == sv,
            n == sv.len(),
            i <= n,
            hi_s == id_position(sv, last),
            hi_found ==> (hi < n && sv[hi as int].id == last && hi_s == hi),
            !hi_found ==> (forall|t: int| 0 <= t < i ==> sv[t].id != last),
            hi_found || (hi_s == -1 || hi_s >= i),
        decreases n - i,
    {
        proof {
            lemma_id_position(sv, last);
        }
        if !hi_found && migs[i].id == last {
            hi = i;
            hi_found = true;
            proof {
                lemma_id_position(sv, last);
                if hi_s != i as int {
                    if hi_s == -1 {
                        assert(sv[i as int].id != last);
                    } else if hi_s < i as int {
                        assert(sv[hi_s].id != last);
                    } else {
                        assert(sv[i as int].id != last);
                    }
                }
            }
        }
        i += 1;
    }
    if !hi_found {
        proof {
            if hi_s >= 0 {
                assert(sv[hi_s].id != last);
            }
            assert(!migration_ids(sv).contains(last)) by {
                if migration_ids(sv).contains(last) {
                    let w = choose|w: int|
                        0 <= w < migration_ids(sv).len() && migration_ids(sv)[w] == last;
                    assert(sv[w].id != last);
                }
            }
        }
        return Err(SquashRangeError::MissingEndpoint { id: last });
    }
    proof {
        assert(migration_ids(sv)[lo as int] == first);
        assert(migration_ids(sv).contains(first));
        assert(migration_ids(sv)[hi as int] == last);
        assert(migration_ids(sv).contains(last));
        assert(lo <= hi) by {
            if (hi as int) < (lo as int) {
                assert(sv[hi as int].id < sv[lo as int].id);
            }
        }
    }

    // no migration outside the range may build on a mid-range id
    let mut p: usize = 0;
    while p < n
        invariant
            sv == store@,
            migration_views(migs@) == sv,
            n == sv.len(),
            p <= n,
            first <= last,
            forall|t: int, k: int|
                0 <= t < p && !(first <= sv[t].id <= last) && 0 <= k < sv[t].predecessors.len()
                    ==> !(first <= #[trigger] sv[t].predecessors[k] < last),
        decreases n - p,
    {
        let outside = migs[p].id < first || migs[p].id > last;
        if outside {
            let preds = &migs[p].predecessors;
            let mut k: usize = 0;
            while k < preds.len()
                invariant
                    sv == store@,
                    migration_views(migs@) == sv,
                    n == sv.len(),
                    p < n,
                    preds@ == sv[p as int].predecessors,
                    !(first <= sv[p as int].id <= last),
                    k <= preds@.len(),
                    forall|t: int|
                        0 <= t < k ==> !(first <= #[trigger] sv[p as int].predecessors[t] < last),
                decreases preds@.len() - k,
            {
                if preds[k] >= first && preds[k] < last {
                    proof {
                        let pp = p as int;
                        let kk = k as int;
                        assert(0 <= pp < sv.len());
                        assert(!(first <= sv[pp].id <= last));
                        assert(0 <= kk < sv[pp].predecessors.len());
                        assert(first <= sv[pp].predecessors[kk] < last);
                        assert(!squash_range_valid(sv, first, last)) by {
                            if squash_range_valid(sv, first, last) {
                                assert(!(first <= sv[pp].predecessors[kk] < last));
                            }
                        }
                    }
                    return Err(
                        SquashRangeError::ExternalDependent {
                            id: migs[p].id,
                            predecessor: preds[k],
                        },
                    );
                }
                k += 1;
            }
        }
        p += 1;
    }
    assert(squash_range_valid(sv, first, last));

    // fold the range's operations into one list
    let mut ops: Vec<Operation> = Vec::new();
    let mut i: usize = lo;
    proof {
        assert(operation_views(ops@) =~= range_ops(sv, lo as int, lo as int));
    }
    while i <= hi
        invariant
            migration_views(migs@) == sv,
            n == sv.len(),
            lo <= i,
            i <= hi + 1,
            hi < n,
            operation_views(ops@) == range_ops(sv, lo as int, i as int),
        decreases hi + 1 - i,
    {
        let ghost before = operation_views(ops@);
        let mut more = clone_operations(&migs[i].operations);
        let ghost morev = operation_views(more@);
        assert(morev == sv[i as int].operations);
        let mut j: usize = 0;
        while j < more.len()
            invariant
                morev == operation_views(more@),
                j <= morev.len(),
                operation_views(ops@) == before + morev.take(j as int),
            decreases morev.len() - j,
        {
            let ghost cur = operation_views(ops@);
            let op = more[j].clone();
            assert(op@ == morev[j as int]);
            ops.push(op);
            proof {
                assert(operation_views(ops@) =~= cur.push(morev[j as int]));
                assert(before + morev.take(j + 1 as int) =~= (before + morev.take(j as int)).push(
                    morev[j as int],
                ));
            }
            j += 1;
        }
        proof {
            assert(morev.take(morev.len() as int) =~= morev);
            lemma_range_ops_snoc(sv, lo as int, i as int);
        }
        i += 1;
    }

    let folded = squash_operations(&ops);
    let new_mig = Migration {
        id: last,
        name,
        predecessors: clone_ids(&migs[lo].predecessors),
        operations: folded,
    };
    let ghost new_v = squashed_migration(sv, first, last, new_mig.name@);
    assert(new_mig@ == new_v);

    // splice: everything before the range, the squashed migration,
    // everything after the range
    let mut out: Vec<Migration> = Vec::new();
    let mut i: usize = 0;
    while i < lo
        invariant
            migration_views(migs@) == sv,
            n == sv.len(),
            lo < n,
            i <= lo,
            migration_views(out@) == sv.take(i as int),
        decreases lo - i,
    {
        let ghost before = migration_views(out@);
        out.push(migs[i].clone());
        proof {
            assert(migration_views(out@) =~= before.push(sv[i as int]));
            assert(sv.take(i + 1 as int) =~= sv.take(i as int).push(sv[i as int]));
        }
        i += 1;
    }
    let ghost mid = migration_views(out@);
    out.push(new_mig);
    proof {
        assert(migration_views(out@) =~= sv.take(lo as int).push(new_v));
    }
    let mut i: usize = hi + 1;
    while i < n
        invariant
            migration_views(migs@) == sv,
            n == sv.len(),
            hi < n,
            hi + 1 <= i,
            i <= n,
            migration_views(out@) == sv.take(lo as int).push(new_v) + sv.subrange(
                hi + 1 as int,
                i as int,
            ),
        decreases n - i,
    {
        let ghost before = migration_views(out@);
        out.push(migs[i].clone());
        proof {
            assert(migration_views(out@) =~= before.push(sv[i as int]));
            assert(sv.subrange(hi + 1 as int, i + 1 as int) =~= sv.subrange(
                hi + 1 as int,
                i as int,
            ).push(sv[i as int]));
            assert(sv.take(lo as int).push(new_v) + sv.subrange(hi + 1 as int, i + 1 as int) =~= (
            sv.take(lo as int).push(new_v) + sv.subrange(hi + 1 as int, i as int)).push(
                sv[i as int],
            ));
        }
        i += 1;
    }
    let ghost outv = migration_views(out@);
    proof {
        assert(outv =~= sv.take(lo as int) + seq![new_v] + sv.skip(hi + 1 as int)) by {
            assert(sv.take(lo as int).push(new_v) =~= sv.take(lo as int) + seq![new_v]);
            assert(sv.subrange(hi + 1 as int, n as int) =~= sv.skip(hi + 1 as int));
        }
        // ids before the range stay below `first`, the squashed migration
        // bears `last`, ids after stay above: still strictly ascending
        assert(store_wf(outv)) by {
            assert(forall|t: int| 0 <= t < lo ==> outv[t] == sv[t]);
            assert(outv[lo as int] == new_v);
            assert(forall|t: int|
                lo < t < outv.len() ==> outv[t] == sv[t + ((hi - lo) as int)]);
            assert(forall|t: int| 0 <= t < lo ==> sv[t].id < first);
            assert(forall|t: int|
                lo < t < outv.len() ==> outv[t].id > last);
            assert(crate::store::sorted_by_id(outv));
            assert(crate::store::all_predecessors_earlier(outv)) by {
                assert(crate::model::predecessors_earlier(new_v));
            }
        }
    }

    // the removed ids: every id the range held
    let mut removed: Vec<u16> = Vec::new();
    let mut i: usize = lo;
    while i <= hi
        invariant
            migration_views(migs@) == sv,
            n == sv.len(),
            lo <= i,
            i <= hi + 1,
            hi < n,
            removed@ == migration_ids(sv).subrange(lo as int, i as int),
        decreases hi + 1 - i,
    {
        let ghost before = removed@;
        removed.push(migs[i].id);
        proof {
            assert(migration_ids(sv).subrange(lo as int, i + 1 as int) =~= migration_ids(
                sv,
            ).subrange(lo as int, i as int).push(migration_ids(sv)[i as int]));
        }
        i += 1;
    }

    let store2 = MigrationStore::from_sorted(out);
    Ok(SquashOutcome { store: store2, removed })
}

/// Creating a field and deleting it again inside one squashed range leaves
/// no trace of the field.
pub proof fn lemma_squash_cancels_created_field(m: Seq<char>, f: FieldV)
    ensures
        squash_ops(
            seq![
                OperationV::CreateField { model: m, field: f },
                OperationV::DeleteField { model: m, name: f.name },
            ],
        ) == Seq::<OperationV>::empty(),
{
    let cf = OperationV::CreateField { model: m, field: f };
    let df = OperationV::DeleteField { model: m, name: f.name };
    let ops = seq![cf, df];
    let acc1 = fold_step(Seq::empty(), cf);
    assert(find_match(Seq::<OperationV>::empty(), ProbeV::CreateModel { model: m }) == -1);
    assert(acc1 =~= seq![cf]);
    assert(find_match(acc1, ProbeV::CreateField { model: m, field: f.name }) == 0) by {
        assert(op_matches(acc1[0], ProbeV::CreateField { model: m, field: f.name }));
    }
    let acc2 = fold_step(acc1, df);
    assert(acc2 =~= Seq::<OperationV>::empty());
    assert(squash_ops(ops) == squash_from(Seq::empty(), ops, 0));
    assert(squash_from(Seq::empty(), ops, 0) == squash_from(acc1, ops, 1));
    assert(squash_from(acc1, ops, 1) == squash_from(acc2, ops, 2));
    assert(squash_from(acc2, ops, 2) == acc2);
}

/// Creating a model and then a field on it inside one squashed range folds
/// into a single CreateModel carrying the field.
pub proof fn lemma_squash_folds_field_into_model(m: Seq<char>, fields: Seq<FieldV>, f: FieldV)
    ensures
        squash_ops(
            seq![
                OperationV::CreateModel { name: m, fields: fields },
                OperationV::CreateField { model: m, field: f },
            ],
        ) == seq![OperationV::CreateModel { name: m, fields: fields.push(f) }],
{
    let cm = OperationV::CreateModel { name: m, fields: fields };
    let cf = OperationV::CreateField { model: m, field: f };
    let ops = seq![cm, cf];
    let acc1 = fold_step(Seq::empty(), cm);
    assert(acc1 =~= seq![cm]);
    assert(find_match(acc1, ProbeV::CreateModel { model: m }) == 0) by {
        assert(op_matches(acc1[0], ProbeV::CreateModel { model: m }));
    }
    let acc2 = fold_step(acc1, cf);
    assert(acc2 =~= seq![OperationV::CreateModel { name: m, fields: fields.push(f) }]);
    assert(squash_ops(ops) == squash_from(Seq::empty(), ops, 0));
    assert(squash_from(Seq::empty(), ops, 0) == squash_from(acc1, ops, 1));
    assert(squash_from(acc1, ops, 1) == squash_from(acc2, ops, 2));
    assert(squash_from(acc2, ops, 2) == acc2);
}

/// Creating a model and deleting it again inside one squashed range leaves
/// nothing: the model never needs to be created at all.
pub proof fn lemma_squash_cancels_created_model(m: Seq<char>, fields: Seq<FieldV>)
    ensures
        squash_ops(
            seq![
                OperationV::CreateModel { name: m, fields: fields },
                OperationV::DeleteModel { name: m },
            ],
        ) == Seq::<OperationV>::empty(),
{
    let cm = OperationV::CreateModel { name: m, fields: fields };
    let dm = OperationV::DeleteModel { name: m };
    let ops = seq![cm, dm];
    let acc1 = fold_step(Seq::empty(), cm);
    assert(acc1 =~= seq![cm]);
    assert(find_match(acc1, ProbeV::CreateModel { model: m }) == 0) by {
        assert(op_matches(acc1[0], ProbeV::CreateModel { model: m }));
    }
    let acc2 = fold_step(acc1, dm);
    assert(acc2 =~= Seq::<OperationV>::empty());
    assert(squash_ops(ops) == squash_from(Seq::empty(), ops, 0));
    assert(squash_from(Seq::empty(), ops, 0) == squash_from(acc1, ops, 1));
    assert(squash_from(acc1, ops, 1) == squash_from(acc2, ops, 2));
    assert(squash_from(acc2, ops, 2) == acc2);
}

} // verus!
