//! The schema diff generator: reconstruct the schema implied by replaying
//! every stored migration, compare it against a declared snapshot of the
//! current models, and emit the operations that carry the one into the
//! other. It never touches a database; it is the sole origin of operations
//! the rest of the engine consumes.

use vstd::prelude::*;

use crate::model::{
    clone_fields, field_views, Field, FieldV, Migration, MigrationV, Operation, OperationV,
};
use crate::store::MigrationStore;

verus! {

/// One model of a schema: its name and its ordered columns.
#[derive(Debug, PartialEq)]
pub struct ModelDef {
    /// Name of the model
    pub name: String,
    /// Ordered columns of the model
    pub fields: Vec<Field>,
}

/// The mathematical value of a [`ModelDef`].
pub ghost struct ModelDefV {
    /// Name of the model
    pub name: Seq<char>,
    /// Ordered columns of the model
    pub fields: Seq<FieldV>,
}

impl View for ModelDef {
    type V = ModelDefV;

    open spec fn view(&self) -> ModelDefV {
        ModelDefV { name: self.name@, fields: field_views(self.fields@) }
    }
}

/// The views of a sequence of models, in the same order.
pub open spec fn model_views(s: Seq<ModelDef>) -> Seq<ModelDefV> {
    s.map_values(|m: ModelDef| m@)
}

/// One operation replayed onto a schema state. A raw statement leaves the
/// tracked structure as it is: the generator cannot look inside it.
pub open spec fn apply_op(state: Seq<ModelDefV>, op: OperationV) -> Seq<ModelDefV> {
    match op {
        OperationV::CreateModel { name, fields } => state.push(ModelDefV { name, fields }),
        OperationV::RenameModel { old, new } => state.map_values(
            |m: ModelDefV|
                if m.name == old {
                    ModelDefV { name: new, fields: m.fields }
                } else {
                    m
                },
        ),
        OperationV::DeleteModel { name } => state.filter(|m: ModelDefV| m.name != name),
        OperationV::CreateField { model, field } => state.map_values(
            |m: ModelDefV|
                if m.name == model {
                    ModelDefV { name: m.name, fields: m.fields.push(field) }
                } else {
                    m
                },
        ),
        OperationV::RenameField { table_name, old, new } => state.map_values(
            |m: ModelDefV|
                if m.name == table_name {
                    ModelDefV { name: m.name, fields: crate::model::renamed_fields(m.fields, old, new) }
                } else {
                    m
                },
        ),
        OperationV::DeleteField { model, name } => state.map_values(
            |m: ModelDefV|
                if m.name == model {
                    ModelDefV { name: m.name, fields: crate::model::dropped_fields(m.fields, name) }
                } else {
                    m
                },
        ),
        OperationV::RawSQL { .. } => state,
    }
}

/// The schema after replaying the operations from index `i` on.
pub open spec fn replay_ops_from(state: Seq<ModelDefV>, ops: Seq<OperationV>, i: int) -> Seq<
    ModelDefV,
>
    decreases ops.len() - i,
{
    if i < 0 || i >= ops.len() {
        state
    } else {
        replay_ops_from(apply_op(state, ops[i]), ops, i + 1)
    }
}

/// The schema after replaying every migration from position `i` on.
pub open spec fn replay_migrations_from(
    state: Seq<ModelDefV>,
    s: Seq<MigrationV>,
    i: int,
) -> Seq<ModelDefV>
    decreases s.len() - i,
{
    if i < 0 || i >= s.len() {
        state
    } else {
        replay_migrations_from(replay_ops_from(state, s[i].operations, 0), s, i + 1)
    }
}

/// The schema the stored history implies: every migration's operations
/// replayed in id order onto an empty schema.
pub open spec fn replayed_schema(s: Seq<MigrationV>) -> Seq<ModelDefV> {
    replay_migrations_from(Seq::empty(), s, 0)
}

/// Whether the schema holds a model of the given name.
pub open spec fn schema_has_model(state: Seq<ModelDefV>, name: Seq<char>) -> bool {
    exists|i: int| 0 <= i < state.len() && #[trigger] state[i].name == name
}

/// Whether the field list holds this exact field: same name, same type,
/// same annotations. A field whose type or annotations changed is not
/// held, so the diff replaces it by a delete and a create.
pub open spec fn fields_have(fields: Seq<FieldV>, f: FieldV) -> bool {
    exists|i: int| 0 <= i < fields.len() && #[trigger] fields[i] == f
}

/// The position of the model with the given name, or -1.
pub open spec fn find_model(state: Seq<ModelDefV>, name: Seq<char>) -> int
    decreases state.len(),
{
    if state.len() == 0 {
        -1
    } else if state[0].name == name {
        0
    } else {
        let r = find_model(state.drop_first(), name);
        if r < 0 {
            -1
        } else {
            r + 1
        }
    }
}

/// What [`find_model`] returns: the first position bearing the name, or -1
/// when the schema has no such model.
pub proof fn lemma_find_model(state: Seq<ModelDefV>, name: Seq<char>)
    ensures
        find_model(state, name) == -1 ==> (forall|i: int|
            0 <= i < state.len() ==> state[i].name != name),
        find_model(state, name) >= 0 ==> 0 <= find_model(state, name) < state.len() && state[
            find_model(state, name)
        ].name == name && (forall|i: int|
            0 <= i < find_model(state, name) ==> state[i].name != name),
    decreases state.len(),
{
    if state.len() > 0 {
        let rest = state.drop_first();
        lemma_find_model(rest, name);
        assert(forall|i: int| 0 <= i < rest.len() ==> rest[i] == state[i + 1]);
        if state[0].name != name {
            let r = find_model(rest, name);
            if r < 0 {
                assert forall|i: int| 0 <= i < state.len() implies state[i].name != name by {
                    if i > 0 {
                        assert(rest[i - 1].name != name);
                    }
                }
            } else {
                assert(find_model(state, name) == r + 1);
                assert(rest[r] == state[r + 1]);
                assert forall|i: int| 0 <= i < r + 1 implies state[i].name != name by {
                    if i > 0 {
                        assert(rest[i - 1].name != name);
                    }
                }
            }
        }
    }
}

/// DeleteModel operations for every replayed model the snapshot no longer
/// holds, in replayed order, from position `i` on.
pub open spec fn delete_model_ops(old: Seq<ModelDefV>, new: Seq<ModelDefV>, i: int) -> Seq<
    OperationV,
>
    decreases old.len() - i,
{
    if i < 0 || i >= old.len() {
        Seq::empty()
    } else {
        (if !schema_has_model(new, old[i].name) {
            seq![OperationV::DeleteModel { name: old[i].name }]
        } else {
            Seq::empty()
        }) + delete_model_ops(old, new, i + 1)
    }
}

/// CreateModel operations for every snapshot model the replayed schema
/// does not hold, in snapshot order, from position `i` on.
pub open spec fn create_model_ops(old: Seq<ModelDefV>, new: Seq<ModelDefV>, i: int) -> Seq<
    OperationV,
>
    decreases new.len() - i,
{
    if i < 0 || i >= new.len() {
        Seq::empty()
    } else {
        (if !schema_has_model(old, new[i].name) {
            seq![OperationV::CreateModel { name: new[i].name, fields: new[i].fields }]
        } else {
            Seq::empty()
        }) + create_model_ops(old, new, i + 1)
    }
}

/// DeleteField operations for every old field the new field list no longer
/// holds unchanged, from position `i` on. A field that only changed its
/// type or annotations is deleted here and re-created by
/// [`field_create_ops`].
pub open spec fn field_delete_ops(
    model: Seq<char>,
    oldf: Seq<FieldV>,
    newf: Seq<FieldV>,
    i: int,
) -> Seq<OperationV>
    decreases oldf.len() - i,
{
    if i < 0 || i >= oldf.len() {
        Seq::empty()
    } else {
        (if !fields_have(newf, oldf[i]) {
            seq![OperationV::DeleteField { model: model, name: oldf[i].name }]
        } else {
            Seq::empty()
        }) + field_delete_ops(model, oldf, newf, i + 1)
    }
}

/// CreateField operations for every new field the old field list did not
/// hold unchanged, from position `i` on.
pub open spec fn field_create_ops(
    model: Seq<char>,
    oldf: Seq<FieldV>,
    newf: Seq<FieldV>,
    i: int,
) -> Seq<OperationV>
    decreases newf.len() - i,
{
    if i < 0 || i >= newf.len() {
        Seq::empty()
    } else {
        (if !fields_have(oldf, newf[i]) {
            seq![OperationV::CreateField { model: model, field: newf[i] }]
        } else {
            Seq::empty()
        }) + field_create_ops(model, oldf, newf, i + 1)
    }
}

/// Field operations for every snapshot model both schemas hold, in
/// snapshot order, from position `i` on: first the removed fields, then
/// the added ones.
pub open spec fn common_model_ops(old: Seq<ModelDefV>, new: Seq<ModelDefV>, i: int) -> Seq<
    OperationV,
>
    decreases new.len() - i,
{
    if i < 0 || i >= new.len() {
        Seq::empty()
    } else {
        (if find_model(old, new[i].name) >= 0 {
            let oldm = old[find_model(old, new[i].name)];
            field_delete_ops(new[i].name, oldm.fields, new[i].fields, 0) + field_create_ops(
                new[i].name,
                oldm.fields,
                new[i].fields,
                0,
            )
        } else {
            Seq::empty()
        }) + common_model_ops(old, new, i + 1)
    }
}

/// The operations that carry the replayed schema into the snapshot:
/// dropped models first, then new models, then the field changes of the
/// models both hold. A field whose type or annotations changed appears as
/// a delete followed by a create, since the operation set has no
/// alter-type form. The rename heuristic of interactive use is not
/// applied: a renamed model or field appears as a delete and a create.
pub open spec fn diff_ops(old: Seq<ModelDefV>, new: Seq<ModelDefV>) -> Seq<OperationV> {
    delete_model_ops(old, new, 0) + create_model_ops(old, new, 0) + common_model_ops(old, new, 0)
}

/// Whether the schema holds a model of the given name.
fn has_model_exec(state: &Vec<ModelDef>, name: &String) -> (r: bool)
    ensures
        r == schema_has_model(model_views(state@), name@),
{
    let ghost sv = model_views(state@);
    let mut i: usize = 0;
    while i < state.len()
        invariant
            sv == model_views(state@),
            i <= sv.len(),
            forall|t: int| 0 <= t < i ==> sv[t].name != name@,
        decreases sv.len() - i,
    {
        if state[i].name == *name {
            assert(sv[i as int].name == name@);
            return true;
        }
        i += 1;
    }
    false
}

/// The position of the model with the given name.
fn find_model_exec(state: &Vec<ModelDef>, name: &String) -> (r: Option<usize>)
    ensures
        (match r {
            Some(i) => find_model(model_views(state@), name@) == i,
            None => find_model(model_views(state@), name@) == -1,
        }),
{
    let ghost sv = model_views(state@);
    let mut i: usize = 0;
    while i < state.len()
        invariant
            sv == model_views(state@),
            i <= sv.len(),
            forall|t: int| 0 <= t < i ==> sv[t].name != name@,
        decreases sv.len() - i,
    {
        proof {
            lemma_find_model(sv, name@);
        }
        if state[i].name == *name {
            proof {
                let f = find_model(sv, name@);
                if f != i as int {
                    if f == -1 {
                        assert(sv[i as int].name != name@);
                    } else if f < i as int {
                        assert(sv[f].name != name@);
                    } else {
                        assert(sv[i as int].name != name@);
                    }
                }
            }
            return Some(i);
        }
        i += 1;
    }
    proof {
        lemma_find_model(sv, name@);
        if find_model(sv, name@) >= 0 {
            assert(sv[find_model(sv, name@)].name != name@);
        }
    }
    None
}

/// Whether two fields are the same column: name, type and annotations.
fn fields_equal(a: &Field, b: &Field) -> (r: bool)
    ensures
        r == (a@ == b@),
{
    if !(a.name == b.name) {
        return false;
    }
    if !(a.db_type == b.db_type) {
        return false;
    }
    if a.annotations.len() != b.annotations.len() {
        return false;
    }
    let mut i: usize = 0;
    while i < a.annotations.len()
        invariant
            a@.annotations.len() == b@.annotations.len(),
            i <= a@.annotations.len(),
            forall|t: int| 0 <= t < i ==> a@.annotations[t] == b@.annotations[t],
        decreases a@.annotations.len() - i,
    {
        if !(a.annotations[i] == b.annotations[i]) {
            return false;
        }
        i += 1;
    }
    proof {
        assert(a@.annotations =~= b@.annotations);
    }
    true
}

/// Whether the field list holds this exact field.
fn has_field_exec(fields: &Vec<Field>, f: &Field) -> (r: bool)
    ensures
        r == fields_have(field_views(fields@), f@),
{
    let ghost fv = field_views(fields@);
    let mut i: usize = 0;
    while i < fields.len()
        invariant
            fv == field_views(fields@),
            i <= fv.len(),
            forall|t: int| 0 <= t < i ==> fv[t] != f@,
        decreases fv.len() - i,
    {
        if fields_equal(&fields[i], f) {
            assert(fv[i as int] == f@);
            return true;
        }
        i += 1;
    }
    false
}

/// The operations that carry the replayed schema `old` into the snapshot
/// `new`, as [`diff_ops`] lays them out.
pub fn diff_schemas(old: &Vec<ModelDef>, new: &Vec<ModelDef>) -> (r: Vec<Operation>)
    ensures
        crate::model::operation_views(r@) == diff_ops(model_views(old@), model_views(new@)),
{
    let ghost ov = model_views(old@);
    let ghost nv = model_views(new@);
    let mut out: Vec<Operation> = Vec::new();

    let mut i: usize = 0;
    while i < old.len()
        invariant
            ov == model_views(old@),
            nv == model_views(new@),
            i <= ov.len(),
            crate::model::operation_views(out@) + delete_model_ops(ov, nv, i as int)
                == delete_model_ops(ov, nv, 0),
        decreases ov.len() - i,
    {
        let ghost before = crate::model::operation_views(out@);
        if !has_model_exec(new, &old[i].name) {
            out.push(Operation::DeleteModel { name: old[i].name.clone() });
            proof {
                assert(crate::model::operation_views(out@) =~= before.push(
                    OperationV::DeleteModel { name: ov[i as int].name },
                ));
                assert(before.push(OperationV::DeleteModel { name: ov[i as int].name })
                    + delete_model_ops(ov, nv, i + 1 as int) =~= before + (seq![
                    OperationV::DeleteModel { name: ov[i as int].name },
                ] + delete_model_ops(ov, nv, i + 1 as int)));
            }
        } else {
            proof {
                assert(Seq::<OperationV>::empty() + delete_model_ops(ov, nv, i + 1 as int)
                    =~= delete_model_ops(ov, nv, i + 1 as int));
            }
        }
        i += 1;
    }
    let ghost dels = crate::model::operation_views(out@);
    proof {
        assert(dels + Seq::<OperationV>::empty() =~= dels);
        assert(dels == delete_model_ops(ov, nv, 0));
    }

    let mut i: usize = 0;
    while i < new.len()
        invariant
            ov == model_views(old@),
            nv == model_views(new@),
            i <= nv.len(),
            dels == delete_model_ops(ov, nv, 0),
            crate::model::operation_views(out@) + create_model_ops(ov, nv, i as int) == dels
                + create_model_ops(ov, nv, 0),
        decreases nv.len() - i,
    {
        let ghost before = crate::model::operation_views(out@);
        if !has_model_exec(old, &new[i].name) {
            out.push(
                Operation::CreateModel {
                    name: new[i].name.clone(),
                    fields: clone_fields(&new[i].fields),
                },
            );
            proof {
                let op = OperationV::CreateModel { name: nv[i as int].name, fields: nv[i as int].fields };
                assert(crate::model::operation_views(out@) =~= before.push(op));
                assert(before.push(op) + create_model_ops(ov, nv, i + 1 as int) =~= before + (
                seq![op] + create_model_ops(ov, nv, i + 1 as int)));
            }
        } else {
            proof {
                assert(Seq::<OperationV>::empty() + create_model_ops(ov, nv, i + 1 as int)
                    =~= create_model_ops(ov, nv, i + 1 as int));
            }
        }
        i += 1;
    }
    let ghost dc = crate::model::operation_views(out@);
    proof {
        assert(dc + Seq::<OperationV>::empty() =~= dc);
        assert(dc == dels + create_model_ops(ov, nv, 0));
    }

    let mut i: usize = 0;
    while i < new.len()
        invariant
            ov == model_views(old@),
            nv == model_views(new@),
            i <= nv.len(),
            dc == delete_model_ops(ov, nv, 0) + create_model_ops(ov, nv, 0),
            crate::model::operation_views(out@) + common_model_ops(ov, nv, i as int) == dc
                + common_model_ops(ov, nv, 0),
        decreases nv.len() - i,
    {
        let ghost before = crate::model::operation_views(out@);
        match find_model_exec(old, &new[i].name) {
            Some(c) => {
                proof {
                    lemma_find_model(ov, nv[i as int].name);
                }
                let oldm = &old[c];
                let newm = &new[i];
                let ghost of = ov[c as int].fields;
                let ghost nf = nv[i as int].fields;
                let ghost model = nv[i as int].name;
                let mut j: usize = 0;
                while j < oldm.fields.len()
                    invariant
                        of == field_views(oldm.fields@),
                        nf == field_views(newm.fields@),
                        model == model_views(new@)[i as int].name,
                        newm.name@ == model,
                        j <= of.len(),
                        crate::model::operation_views(out@) + field_delete_ops(
                            model,
                            of,
                            nf,
                            j as int,
                        ) == before + field_delete_ops(model, of, nf, 0),
                    decreases of.len() - j,
                {
                    let ghost cur = crate::model::operation_views(out@);
                    if !has_field_exec(&newm.fields, &oldm.fields[j]) {
                        out.push(
                            Operation::DeleteField {
                                model: newm.name.clone(),
                                name: oldm.fields[j].name.clone(),
                            },
                        );
                        proof {
                            let op = OperationV::DeleteField { model: model, name: of[j as int].name };
                            assert(crate::model::operation_views(out@) =~= cur.push(op));
                            assert(cur.push(op) + field_delete_ops(model, of, nf, j + 1 as int)
                                =~= cur + (seq![op] + field_delete_ops(model, of, nf, j + 1 as int)));
                        }
                    } else {
                        proof {
                            assert(Seq::<OperationV>::empty() + field_delete_ops(
                                model,
                                of,
                                nf,
                                j + 1 as int,
                            ) =~= field_delete_ops(model, of, nf, j + 1 as int));
                        }
                    }
                    j += 1;
                }
                let ghost afterdel = crate::model::operation_views(out@);
                proof {
                    assert(afterdel + Seq::<OperationV>::empty() =~= afterdel);
                }
                let mut j: usize = 0;
                while j < newm.fields.len()
                    invariant
                        of == field_views(oldm.fields@),
                        nf == field_views(newm.fields@),
                        model == model_views(new@)[i as int].name,
                        newm.name@ == model,
                        j <= nf.len(),
                        crate::model::operation_views(out@) + field_create_ops(
                            model,
                            of,
                            nf,
                            j as int,
                        ) == afterdel + field_create_ops(model, of, nf, 0),
                    decreases nf.len() - j,
                {
                    let ghost cur = crate::model::operation_views(out@);
                    if !has_field_exec(&oldm.fields, &newm.fields[j]) {
                        out.push(
                            Operation::CreateField {
                                model: newm.name.clone(),
                                field: newm.fields[j].clone(),
                            },
                        );
                        proof {
                            let op = OperationV::CreateField { model: model, field: nf[j as int] };
                            assert(crate::model::operation_views(out@) =~= cur.push(op));
                            assert(cur.push(op) + field_create_ops(model, of, nf, j + 1 as int)
                                =~= cur + (seq![op] + field_create_ops(model, of, nf, j + 1 as int)));
                        }
                    } else {
                        proof {
                            assert(Seq::<OperationV>::empty() + field_create_ops(
                                model,
                                of,
                                nf,
                                j + 1 as int,
                            ) =~= field_create_ops(model, of, nf, j + 1 as int));
                        }
                    }
                    j += 1;
                }
                proof {
                    assert(crate::model::operation_views(out@) + Seq::<OperationV>::empty()
                        =~= crate::model::operation_views(out@));
                    assert(crate::model::operation_views(out@) == before + (field_delete_ops(
                        model,
                        of,
                        nf,
                        0,
                    ) + field_create_ops(model, of, nf, 0))) by {
                        assert((before + field_delete_ops(model, of, nf, 0)) + field_create_ops(
                            model,
                            of,
                            nf,
                            0,
                        ) =~= before + (field_delete_ops(model, of, nf, 0) + field_create_ops(
                            model,
                            of,
                            nf,
                            0,
                        )));
                    }
                }
            },
            None => {
                proof {
                    assert(Seq::<OperationV>::empty() + common_model_ops(ov, nv, i + 1 as int)
                        =~= common_model_ops(ov, nv, i + 1 as int));
                }
            },
        }
        i += 1;
    }
    proof {
        assert(crate::model::operation_views(out@) + Seq::<OperationV>::empty()
            =~= crate::model::operation_views(out@));
        assert((delete_model_ops(ov, nv, 0) + create_model_ops(ov, nv, 0)) + common_model_ops(
            ov,
            nv,
            0,
        ) =~= diff_ops(ov, nv));
    }
    out
}

/// Copy one model definition.
fn clone_model(m: &ModelDef) -> (r: ModelDef)
    ensures
        r@ == m@,
{
    ModelDef { name: m.name.clone(), fields: clone_fields(&m.fields) }
}

/// Replay one operation onto the schema state.
fn apply_op_exec(state: &mut Vec<ModelDef>, op: &Operation)
    ensures
        model_views(final(state)@) == apply_op(model_views(old(state)@), op@),
{
    let ghost sv = model_views(state@);
    match op {
        Operation::CreateModel { name, fields } => {
            state.push(ModelDef { name: name.clone(), fields: clone_fields(fields) });
            proof {
                assert(model_views(state@) =~= sv.push(
                    ModelDefV { name: name@, fields: field_views(fields@) },
                ));
            }
        },
        Operation::RenameModel { old, new } => {
            let ghost mapped = apply_op(sv, op@);
            let mut out: Vec<ModelDef> = Vec::new();
            let mut i: usize = 0;
            while i < state.len()
                invariant
                    sv == model_views(state@),
                    mapped == apply_op(sv, op@),
                    op@ matches OperationV::RenameModel { .. },
                    op@->RenameModel_old == old@,
                    op@->RenameModel_new == new@,
                    i <= sv.len(),
                    model_views(out@) == mapped.take(i as int),
                decreases sv.len() - i,
            {
                let ghost before = model_views(out@);
                let m = &state[i];
                if m.name == *old {
                    out.push(ModelDef { name: new.clone(), fields: clone_fields(&m.fields) });
                } else {
                    out.push(clone_model(m));
                }
                proof {
                    assert(model_views(out@) =~= before.push(mapped[i as int]));
                    assert(mapped.take(i + 1 as int) =~= mapped.take(i as int).push(
                        mapped[i as int],
                    ));
                }
                i += 1;
            }
            proof {
                assert(mapped.take(mapped.len() as int) =~= mapped);
            }
            *state = out;
        },
        Operation::DeleteModel { name } => {
            let ghost kept = apply_op(sv, op@);
            let mut out: Vec<ModelDef> = Vec::new();
            let mut i: usize = 0;
            proof {
                reveal(Seq::filter);
                assert(model_views(out@) =~= sv.take(0).filter(
                    |m: ModelDefV| m.name != name@,
                ));
            }
            while i < state.len()
                invariant
                    sv == model_views(state@),
                    op@ matches OperationV::DeleteModel { .. },
                    op@->DeleteModel_name == name@,
                    i <= sv.len(),
                    model_views(out@) == sv.take(i as int).filter(|m: ModelDefV| m.name != name@),
                decreases sv.len() - i,
            {
                let ghost before = model_views(out@);
                let keep = !(state[i].name == *name);
                if keep {
                    out.push(clone_model(&state[i]));
                }
                proof {
                    reveal(Seq::filter);
                    let pre = sv.take(i as int);
                    let post = sv.take(i + 1 as int);
                    assert(post.drop_last() =~= pre);
                    assert(post.last() == sv[i as int]);
                    if keep {
                        assert(model_views(out@) =~= before.push(sv[i as int]));
                    }
                }
                i += 1;
            }
            proof {
                assert(sv.take(sv.len() as int) =~= sv);
            }
            *state = out;
        },
        Operation::CreateField { model, field } => {
            let ghost mapped = apply_op(sv, op@);
            let mut out: Vec<ModelDef> = Vec::new();
            let mut i: usize = 0;
            while i < state.len()
                invariant
                    sv == model_views(state@),
                    mapped == apply_op(sv, op@),
                    op@ matches OperationV::CreateField { .. },
                    op@->CreateField_model == model@,
                    op@->CreateField_field == field@,
                    i <= sv.len(),
                    model_views(out@) == mapped.take(i as int),
                decreases sv.len() - i,
            {
                let ghost before = model_views(out@);
                let m = &state[i];
                if m.name == *model {
                    let mut fs = clone_fields(&m.fields);
                    let ghost fsv = field_views(fs@);
                    fs.push(field.clone());
                    proof {
                        assert(field_views(fs@) =~= fsv.push(field@));
                    }
                    out.push(ModelDef { name: m.name.clone(), fields: fs });
                } else {
                    out.push(clone_model(m));
                }
                proof {
                    assert(model_views(out@) =~= before.push(mapped[i as int]));
                    assert(mapped.take(i + 1 as int) =~= mapped.take(i as int).push(
                        mapped[i as int],
                    ));
                }
                i += 1;
            }
            proof {
                assert(mapped.take(mapped.len() as int) =~= mapped);
            }
            *state = out;
        },
        Operation::RenameField { table_name, old, new } => {
            let ghost mapped = apply_op(sv, op@);
            let mut out: Vec<ModelDef> = Vec::new();
            let mut i: usize = 0;
            while i < state.len()
                invariant
                    sv == model_views(state@),
                    mapped == apply_op(sv, op@),
                    op@ matches OperationV::RenameField { .. },
                    op@->RenameField_table_name == table_name@,
                    op@->RenameField_old == old@,
                    op@->RenameField_new == new@,
                    i <= sv.len(),
                    model_views(out@) == mapped.take(i as int),
                decreases sv.len() - i,
            {
                let ghost before = model_views(out@);
                let m = &state[i];
                if m.name == *table_name {
                    let ghost rf = crate::model::renamed_fields(
                        sv[i as int].fields,
                        op@->RenameField_old,
                        op@->RenameField_new,
                    );
                    let renamed = rename_fields(&m.fields, old, new);
                    proof {
                        assert(sv[i as int].fields == field_views(m.fields@));
                        assert(field_views(renamed@) == rf);
                        assert(mapped.len() == sv.len());
                        assert(mapped[i as int] == (ModelDefV { name: sv[i as int].name, fields: rf }));
                    }
                    out.push(ModelDef { name: m.name.clone(), fields: renamed });
                } else {
                    out.push(clone_model(m));
                }
                proof {
                    assert(model_views(out@) =~= before.push(mapped[i as int]));
                    assert(mapped.take(i + 1 as int) =~= mapped.take(i as int).push(
                        mapped[i as int],
                    ));
                }
                i += 1;
            }
            proof {
                assert(mapped.take(mapped.len() as int) =~= mapped);
            }
            *state = out;
        },
        Operation::DeleteField { model, name } => {
            let ghost mapped = apply_op(sv, op@);
            let mut out: Vec<ModelDef> = Vec::new();
            let mut i: usize = 0;
            while i < state.len()
                invariant
                    sv == model_views(state@),
                    mapped == apply_op(sv, op@),
                    op@ matches OperationV::DeleteField { .. },
                    op@->DeleteField_model == model@,
                    op@->DeleteField_name == name@,
                    i <= sv.len(),
                    model_views(out@) == mapped.take(i as int),
                decreases sv.len() - i,
            {
                let ghost before = model_views(out@);
                let m = &state[i];
                if m.name == *model {
                    let ghost df = crate::model::dropped_fields(
                        sv[i as int].fields,
                        op@->DeleteField_name,
                    );
                    let kept = filter_fields(&m.fields, name);
                    proof {
                        assert(sv[i as int].fields == field_views(m.fields@));
                        assert(field_views(kept@) == df);
                        assert(mapped.len() == sv.len());
                        assert(mapped[i as int] == (ModelDefV { name: sv[i as int].name, fields: df }));
                    }
                    out.push(ModelDef { name: m.name.clone(), fields: kept });
                } else {
                    out.push(clone_model(m));
                }
                proof {
                    assert(model_views(out@) =~= before.push(mapped[i as int]));
                    assert(mapped.take(i + 1 as int) =~= mapped.take(i as int).push(
                        mapped[i as int],
                    ));
                }
                i += 1;
            }
            proof {
                assert(mapped.take(mapped.len() as int) =~= mapped);
            }
            *state = out;
        },
        Operation::RawSQL { .. } => {
            proof {
                assert(model_views(state@) == apply_op(sv, op@));
            }
        },
    }
}

/// The fields with the named one renamed.
fn rename_fields(fields: &Vec<Field>, old: &String, new: &String) -> (r: Vec<Field>)
    ensures
        field_views(r@) == crate::model::renamed_fields(field_views(fields@), old@, new@),
{
    let ghost fv = field_views(fields@);
    let ghost mapped = crate::model::renamed_fields(fv, old@, new@);
    let mut out: Vec<Field> = Vec::new();
    let mut k: usize = 0;
    while k < fields.len()
        invariant
            fv == field_views(fields@),
            mapped == crate::model::renamed_fields(fv, old@, new@),
            k <= fv.len(),
            field_views(out@) == mapped.take(k as int),
        decreases fv.len() - k,
    {
        let f = fields[k].clone();
        let ghost before = field_views(out@);
        if f.name == *old {
            out.push(Field { name: new.clone(), db_type: f.db_type, annotations: f.annotations });
        } else {
            out.push(f);
        }
        proof {
            assert(field_views(out@) =~= before.push(mapped[k as int]));
            assert(mapped.take(k + 1 as int) =~= mapped.take(k as int).push(mapped[k as int]));
        }
        k += 1;
    }
    proof {
        assert(mapped.take(mapped.len() as int) =~= mapped);
    }
    out
}

/// The fields without the named one.
fn filter_fields(fields: &Vec<Field>, name: &String) -> (r: Vec<Field>)
    ensures
        field_views(r@) == crate::model::dropped_fields(field_views(fields@), name@),
{
    let ghost fv = field_views(fields@);
    let mut out: Vec<Field> = Vec::new();
    let mut k: usize = 0;
    proof {
        reveal(Seq::filter);
        assert(field_views(out@) =~= crate::model::dropped_fields(fv.take(0), name@));
    }
    while k < fields.len()
        invariant
            fv == field_views(fields@),
            k <= fv.len(),
            field_views(out@) == crate::model::dropped_fields(fv.take(k as int), name@),
        decreases fv.len() - k,
    {
        let keep = !(fields[k].name == *name);
        let ghost before = field_views(out@);
        if keep {
            out.push(fields[k].clone());
        }
        proof {
            reveal(Seq::filter);
            let pre = fv.take(k as int);
            let post = fv.take(k + 1 as int);
            assert(post.drop_last() =~= pre);
            assert(post.last() == fv[k as int]);
            if keep {
                assert(field_views(out@) =~= before.push(fv[k as int]));
            }
        }
        k += 1;
    }
    proof {
        assert(fv.take(fv.len() as int) =~= fv);
    }
    out
}

/// The schema the store's history implies, by replaying every migration's
/// operations in id order.
pub fn replay_store(store: &MigrationStore) -> (r: Vec<ModelDef>)
    ensures
        model_views(r@) == replayed_schema(store@),
{
    let ghost sv = store@;
    let migs = store.migrations();
    let n = migs.len();
    let mut state: Vec<ModelDef> = Vec::new();
    let mut i: usize = 0;
    proof {
        assert(model_views(state@) =~= Seq::<ModelDefV>::empty());
    }
    while i < n
        invariant
            sv == store@,
            crate::model::migration_views(migs@) == sv,
            n == sv.len(),
            i <= n,
            replay_migrations_from(model_views(state@), sv, i as int) == replayed_schema(sv),
        decreases n - i,
    {
        let ops = &migs[i].operations;
        let ghost opv = sv[i as int].operations;
        let mut j: usize = 0;
        while j < ops.len()
            invariant
                sv == store@,
                i < n,
                n == sv.len(),
                opv == sv[i as int].operations,
                crate::model::operation_views(ops@) == opv,
                j <= opv.len(),
                replay_migrations_from(replay_ops_from(model_views(state@), opv, j as int), sv, i + 1 as int)
                    == replayed_schema(sv),
            decreases opv.len() - j,
        {
            assert(ops@[j as int]@ == opv[j as int]);
            apply_op_exec(&mut state, &ops[j]);
            j += 1;
        }
        i += 1;
    }
    state
}

/// Produce the migration that carries the store's replayed schema into the
/// given snapshot, or nothing exactly when the two already agree —
/// [`lemma_empty_diff_means_agreement`] makes that agreement precise, down
/// to each column's type and annotations.
///
/// The new migration takes the next free id and builds on the store's last
/// migration, or on nothing for an empty store.
pub fn make_migration(store: &MigrationStore, snapshot: &Vec<ModelDef>, name: String) -> (r:
    Option<Migration>)
    requires
        store.wf(),
        store@.len() == 0 || store@.last().id < u16::MAX,
    ensures
        r is None <==> diff_ops(replayed_schema(store@), model_views(snapshot@)).len() == 0,
        r is Some ==> ({
            let m = r->0;
            crate::model::operation_views(m.operations@) == diff_ops(
                replayed_schema(store@),
                model_views(snapshot@),
            ) && m@.id == (if store@.len() == 0 {
                1u16
            } else {
                (store@.last().id + 1) as u16
            }) && m@.name == name@ && m@.predecessors == (if store@.len() == 0 {
                Seq::<u16>::empty()
            } else {
                seq![store@.last().id]
            })
        }),
{
    let old_state = replay_store(store);
    let ops = diff_schemas(&old_state, snapshot);
    if ops.len() == 0 {
        return None;
    }
    let id = store.next_free_id();
    let mut predecessors: Vec<u16> = Vec::new();
    if store.len() > 0 {
        let migs = store.migrations();
        predecessors.push(migs[migs.len() - 1].id);
        proof {
            assert(crate::model::migration_views(migs@)[migs@.len() - 1] == store@.last());
            assert(predecessors@ =~= seq![store@.last().id]);
        }
    } else {
        proof {
            assert(predecessors@ =~= Seq::<u16>::empty());
        }
    }
    Some(Migration { id, name, predecessors, operations: ops })
}

/// The model deletions from `i` on vanish exactly when every remaining
/// replayed model still exists in the snapshot.
proof fn lemma_delete_model_ops_empty(old: Seq<ModelDefV>, new: Seq<ModelDefV>, i: int)
    requires
        0 <= i,
    ensures
        delete_model_ops(old, new, i).len() == 0 <==> (forall|p: int|
            i <= p < old.len() ==> schema_has_model(new, #[trigger] old[p].name)),
    decreases old.len() - i,
{
    if 0 <= i < old.len() {
        lemma_delete_model_ops_empty(old, new, i + 1);
        assert((forall|p: int|
            i <= p < old.len() ==> schema_has_model(new, #[trigger] old[p].name)) <==> (
        schema_has_model(new, old[i].name) && (forall|p: int|
            i + 1 <= p < old.len() ==> schema_has_model(new, #[trigger] old[p].name))));
    }
}

/// The model creations from `i` on vanish exactly when every remaining
/// snapshot model already exists in the replayed schema.
proof fn lemma_create_model_ops_empty(old: Seq<ModelDefV>, new: Seq<ModelDefV>, i: int)
    requires
        0 <= i,
    ensures
        create_model_ops(old, new, i).len() == 0 <==> (forall|p: int|
            i <= p < new.len() ==> schema_has_model(old, #[trigger] new[p].name)),
    decreases new.len() - i,
{
    if 0 <= i < new.len() {
        lemma_create_model_ops_empty(old, new, i + 1);
        assert((forall|p: int|
            i <= p < new.len() ==> schema_has_model(old, #[trigger] new[p].name)) <==> (
        schema_has_model(old, new[i].name) && (forall|p: int|
            i + 1 <= p < new.len() ==> schema_has_model(old, #[trigger] new[p].name))));
    }
}

/// The field deletions from `i` on vanish exactly when every remaining old
/// field is held unchanged by the new list.
proof fn lemma_field_delete_ops_empty(model: Seq<char>, oldf: Seq<FieldV>, newf: Seq<FieldV>, i: int)
    requires
        0 <= i,
    ensures
        field_delete_ops(model, oldf, newf, i).len() == 0 <==> (forall|k: int|
            i <= k < oldf.len() ==> fields_have(newf, #[trigger] oldf[k])),
    decreases oldf.len() - i,
{
    if 0 <= i < oldf.len() {
        lemma_field_delete_ops_empty(model, oldf, newf, i + 1);
        assert((forall|k: int| i <= k < oldf.len() ==> fields_have(newf, #[trigger] oldf[k]))
            <==> (fields_have(newf, oldf[i]) && (forall|k: int|
            i + 1 <= k < oldf.len() ==> fields_have(newf, #[trigger] oldf[k]))));
    }
}

/// The field creations from `i` on vanish exactly when every remaining new
/// field was already held unchanged by the old list.
proof fn lemma_field_create_ops_empty(model: Seq<char>, oldf: Seq<FieldV>, newf: Seq<FieldV>, i: int)
    requires
        0 <= i,
    ensures
        field_create_ops(model, oldf, newf, i).len() == 0 <==> (forall|k: int|
            i <= k < newf.len() ==> fields_have(oldf, #[trigger] newf[k])),
    decreases newf.len() - i,
{
    if 0 <= i < newf.len() {
        lemma_field_create_ops_empty(model, oldf, newf, i + 1);
        assert((forall|k: int| i <= k < newf.len() ==> fields_have(oldf, #[trigger] newf[k]))
            <==> (fields_have(oldf, newf[i]) && (forall|k: int|
            i + 1 <= k < newf.len() ==> fields_have(oldf, #[trigger] newf[k]))));
    }
}

/// Whether the replayed model matching the snapshot model at `p` (if one
/// exists) holds exactly the same columns, membership-wise.
pub open spec fn common_model_agrees(old: Seq<ModelDefV>, new: Seq<ModelDefV>, p: int) -> bool {
    find_model(old, new[p].name) >= 0 ==> ({
        let oldm = old[find_model(old, new[p].name)];
        (forall|k: int| 0 <= k < oldm.fields.len() ==> fields_have(new[p].fields, #[trigger]
        oldm.fields[k])) && (forall|k: int|
            0 <= k < new[p].fields.len() ==> fields_have(oldm.fields, #[trigger] new[p].fields[k]))
    })
}

/// The per-model field changes from `i` on vanish exactly when each
/// remaining snapshot model that both schemas hold agrees field for field.
proof fn lemma_common_model_ops_empty(old: Seq<ModelDefV>, new: Seq<ModelDefV>, i: int)
    requires
        0 <= i,
    ensures
        common_model_ops(old, new, i).len() == 0 <==> (forall|p: int|
            i <= p < new.len() ==> #[trigger] common_model_agrees(old, new, p)),
    decreases new.len() - i,
{
    if 0 <= i < new.len() {
        lemma_common_model_ops_empty(old, new, i + 1);
        if find_model(old, new[i].name) >= 0 {
            let oldm = old[find_model(old, new[i].name)];
            lemma_field_delete_ops_empty(new[i].name, oldm.fields, new[i].fields, 0);
            lemma_field_create_ops_empty(new[i].name, oldm.fields, new[i].fields, 0);
        }
        assert((forall|p: int| i <= p < new.len() ==> #[trigger] common_model_agrees(old, new, p))
            <==> (common_model_agrees(old, new, i) && (forall|p: int|
            i + 1 <= p < new.len() ==> #[trigger] common_model_agrees(old, new, p))));
    }
}

/// The delta is empty exactly when the two schemas agree: the same model
/// names on both sides, and every model both schemas hold carries the same
/// columns, each with its exact type and annotations, regardless of order.
/// In particular, a snapshot that changes nothing but one field's type or
/// annotations has a non-empty delta.
pub proof fn lemma_empty_diff_means_agreement(old: Seq<ModelDefV>, new: Seq<ModelDefV>)
    ensures
        diff_ops(old, new).len() == 0 <==> ((forall|p: int|
            0 <= p < old.len() ==> schema_has_model(new, #[trigger] old[p].name)) && (forall|p: int|
            0 <= p < new.len() ==> schema_has_model(old, #[trigger] new[p].name)) && (forall|p: int|
            0 <= p < new.len() ==> #[trigger] common_model_agrees(old, new, p))),
{
    lemma_delete_model_ops_empty(old, new, 0);
    lemma_create_model_ops_empty(old, new, 0);
    lemma_common_model_ops_empty(old, new, 0);
}

} // verus!
