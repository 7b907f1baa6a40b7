//! The dialect SQL builder: a pure mapping from (dialect, operation) to an
//! ordered list of statements with bound parameters.
//!
//! The statement text itself comes from the `rorm_sql` builders, reached
//! through trusted wrappers. The create and alter results are named spec
//! functions — the same dialect and operation always name the same
//! statements, which is what makes the mapping deterministic — while the
//! drop and tracking-insert texts are short enough to be stated exactly.

use vstd::prelude::*;
use vstd::string::*;

use rorm_sql::alter_table::AlterTableOperation as AltOp;
use rorm_sql::alter_table::AlterTable;
use rorm_sql::error::Error as SqlError;
use rorm_sql::create_table::CreateTable;
use rorm_sql::drop_table::DropTable;
use rorm_sql::insert::Insert;
use rorm_sql::value::Value;
use rorm_sql::DBImpl;

use crate::model::{
    field_views, ColumnType, Dialect, Field, FieldAnnotation, FieldV, Migration, Operation,
    OperationV,
};
use rorm_declaration::imr;

verus! {

/// A bound statement parameter, as a plain value.
///
/// The engine itself only ever binds integers (the tracking row's migration
/// id); the other variants carry through whatever a statement builder may
/// bind for richer schemas, with [`Param::Other`] as the rendering of any
/// value of a kind the engine never produces.
#[derive(Debug, PartialEq)]
pub enum Param {
    /// SQL NULL
    Null,
    /// A string value
    Str(String),
    /// A 64 bit integer
    I64(i64),
    /// A 32 bit integer
    I32(i32),
    /// A 16 bit integer
    I16(i16),
    /// A boolean
    Bool(bool),
    /// A byte string
    Bytes(Vec<u8>),
    /// An identifier, taken over verbatim by the database
    Ident(String),
    /// Rendering of a parameter of a kind the engine never produces
    Other(String),
}

/// The mathematical value of a [`Param`].
pub ghost enum ParamV {
    /// SQL NULL
    Null,
    /// A string value
    Str(Seq<char>),
    /// A 64 bit integer
    I64(i64),
    /// A 32 bit integer
    I32(i32),
    /// A 16 bit integer
    I16(i16),
    /// A boolean
    Bool(bool),
    /// A byte string
    Bytes(Seq<u8>),
    /// An identifier
    Ident(Seq<char>),
    /// Rendering of a parameter of a kind the engine never produces
    Other(Seq<char>),
}

impl View for Param {
    type V = ParamV;

    open spec fn view(&self) -> ParamV {
        match self {
            Param::Null => ParamV::Null,
            Param::Str(s) => ParamV::Str(s@),
            Param::I64(x) => ParamV::I64(*x),
            Param::I32(x) => ParamV::I32(*x),
            Param::I16(x) => ParamV::I16(*x),
            Param::Bool(x) => ParamV::Bool(*x),
            Param::Bytes(b) => ParamV::Bytes(b@),
            Param::Ident(s) => ParamV::Ident(s@),
            Param::Other(s) => ParamV::Other(s@),
        }
    }
}

/// One SQL statement and the parameters bound to it.
#[derive(Debug, PartialEq)]
pub struct Statement {
    /// The statement text
    pub text: String,
    /// The bound parameters, in order
    pub params: Vec<Param>,
}

/// The mathematical value of a [`Statement`].
pub ghost struct StatementV {
    /// The statement text
    pub text: Seq<char>,
    /// The bound parameters, in order
    pub params: Seq<ParamV>,
}

impl View for Statement {
    type V = StatementV;

    open spec fn view(&self) -> StatementV {
        StatementV { text: self.text@, params: self.params@.map_values(|p: Param| p@) }
    }
}

/// The views of a sequence of statements, in the same order.
pub open spec fn statement_views(s: Seq<Statement>) -> Seq<StatementV> {
    s.map_values(|st: Statement| st@)
}

/// One alteration of an existing table.
#[derive(Debug, PartialEq)]
pub enum TableChange {
    /// Rename the table itself
    RenameTable {
        /// The new table name
        new: String,
    },
    /// Rename one column
    RenameColumn {
        /// Current column name
        old: String,
        /// New column name
        new: String,
    },
    /// Add a column
    AddColumn {
        /// The column to add
        field: Field,
    },
    /// Drop a column
    DropColumn {
        /// Name of the column to drop
        name: String,
    },
}

/// The mathematical value of a [`TableChange`].
pub ghost enum TableChangeV {
    /// Rename the table itself
    RenameTable { new: Seq<char> },
    /// Rename one column
    RenameColumn { old: Seq<char>, new: Seq<char> },
    /// Add a column
    AddColumn { field: FieldV },
    /// Drop a column
    DropColumn { name: Seq<char> },
}

impl View for TableChange {
    type V = TableChangeV;

    open spec fn view(&self) -> TableChangeV {
        match self {
            TableChange::RenameTable { new } => TableChangeV::RenameTable { new: new@ },
            TableChange::RenameColumn { old, new } => TableChangeV::RenameColumn {
                old: old@,
                new: new@,
            },
            TableChange::AddColumn { field } => TableChangeV::AddColumn { field: field@ },
            TableChange::DropColumn { name } => TableChangeV::DropColumn { name: name@ },
        }
    }
}

/// A statement could not be built for an operation.
#[derive(Debug, PartialEq)]
pub struct BuildError {
    /// What the statement builder reported
    pub message: String,
}

/// The statements `rorm_sql` builds for CREATE TABLE .. IF NOT EXISTS with
/// the given columns; an error is its message. The result depends on the
/// arguments alone.
pub uninterp spec fn create_table_sql(d: Dialect, table: Seq<char>, fields: Seq<FieldV>) -> Result<
    Seq<StatementV>,
    Seq<char>,
>;

/// The statements `rorm_sql` builds for one ALTER TABLE change; an error is
/// its message. The result depends on the arguments alone.
pub uninterp spec fn alter_table_sql(d: Dialect, table: Seq<char>, change: TableChangeV) -> Result<
    Seq<StatementV>,
    Seq<char>,
>;

/// The DROP TABLE statement text, exactly as `rorm_sql` formats it.
pub open spec fn drop_table_text(d: Dialect, table: Seq<char>) -> Seq<char> {
    match d {
        Dialect::SQLite => "DROP TABLE \""@ + table + "\";"@,
        Dialect::MySQL => "DROP TABLE "@ + table + ";"@,
        Dialect::Postgres => "DROP TABLE \""@ + table + "\";"@,
    }
}

/// The tracking-row INSERT, exactly as `rorm_sql` formats it: one row, one
/// column, the migration id as the only bound parameter. On SQLite the
/// statement carries the rollback-on-conflict clause; the other dialects
/// write a plain INSERT, which aborts inside the surrounding transaction.
pub open spec fn tracking_insert_stmt(d: Dialect, table: Seq<char>, migration_id: u16) -> StatementV {
    StatementV {
        text: (match d {
            Dialect::SQLite => "INSERT OR ROLLBACK INTO \""@ + table
                + "\" (\"migration_id\") VALUES (?);"@,
            Dialect::MySQL => "INSERT INTO `"@ + table + "` (`migration_id`) VALUES (?);"@,
            Dialect::Postgres => "INSERT INTO \""@ + table
                + "\" (\"migration_id\") VALUES ($1);"@,
        }),
        params: seq![ParamV::I32(migration_id as i32)],
    }
}

/// Declares `rorm_sql::DBImpl` so wrappers can hand it around; opaque here.
#[verifier::external_type_specification]
#[verifier::external_body]
pub struct ExDbImpl(DBImpl);

/// Declares `rorm_declaration::imr::Annotation`; opaque here.
#[verifier::external_type_specification]
#[verifier::external_body]
pub struct ExImrAnnotation(rorm_declaration::imr::Annotation);

/// Declares `rorm_declaration::imr::DbType`; opaque here.
#[verifier::external_type_specification]
#[verifier::external_body]
pub struct ExImrDbType(rorm_declaration::imr::DbType);

/// Declares `rorm_sql::value::Value`; opaque here.
#[verifier::external_type_specification]
#[verifier::external_body]
pub struct ExValue<'a>(Value<'a>);

/// Relies on `rorm_sql::DBImpl`: each of our dialects picks the
/// corresponding backend.
#[verifier::external_body]
fn db_of(d: Dialect) -> DBImpl {
    match d {
        Dialect::SQLite => DBImpl::SQLite,
        Dialect::MySQL => DBImpl::MySQL,
        Dialect::Postgres => DBImpl::Postgres,
    }
}

/// Relies on `rorm_declaration::imr::Annotation`: each of our annotations
/// moves over to the variant of the same name.
#[verifier::external_body]
fn imr_annotations(v: &Vec<FieldAnnotation>) -> Vec<imr::Annotation> {
    v.iter().map(|a| match a {
        FieldAnnotation::AutoCreateTime => imr::Annotation::AutoCreateTime,
        FieldAnnotation::AutoUpdateTime => imr::Annotation::AutoUpdateTime,
        FieldAnnotation::AutoIncrement => imr::Annotation::AutoIncrement,
        FieldAnnotation::MaxLength(n) => imr::Annotation::MaxLength(*n),
        FieldAnnotation::NotNull => imr::Annotation::NotNull,
        FieldAnnotation::PrimaryKey => imr::Annotation::PrimaryKey,
        FieldAnnotation::Unique => imr::Annotation::Unique,
    }).collect()
}

/// Relies on `rorm_declaration::imr::DbType`: each of our column types
/// moves over to the variant of the same name.
#[verifier::external_body]
fn imr_db_type(t: ColumnType) -> imr::DbType {
    match t {
        ColumnType::VarChar => imr::DbType::VarChar, ColumnType::Binary => imr::DbType::Binary,
        ColumnType::Int8 => imr::DbType::Int8, ColumnType::Int16 => imr::DbType::Int16,
        ColumnType::Int32 => imr::DbType::Int32, ColumnType::Int64 => imr::DbType::Int64,
        ColumnType::Float => imr::DbType::Float, ColumnType::Double => imr::DbType::Double,
        ColumnType::Boolean => imr::DbType::Boolean, ColumnType::Date => imr::DbType::Date,
        ColumnType::DateTime => imr::DbType::DateTime, ColumnType::Timestamp => imr::DbType::Timestamp,
        ColumnType::Time => imr::DbType::Time, ColumnType::Uuid => imr::DbType::Uuid,
    }
}

/// Relies on `rorm_sql::value::Value`: each plain variant moves over to the
/// parameter variant of the same meaning; a null loses only its type tag,
/// and a value of a kind the engine never produces keeps its rendering.
#[verifier::external_body]
fn param_of(v: Value<'_>) -> Param {
    match v {
        Value::Null(_) => Param::Null,
        Value::String(x) => Param::Str(x.to_string()),
        Value::I64(x) => Param::I64(x),
        Value::I32(x) => Param::I32(x),
        Value::I16(x) => Param::I16(x),
        Value::Bool(x) => Param::Bool(x),
        Value::Binary(x) => Param::Bytes(x.to_vec()),
        Value::Ident(x) => Param::Ident(x.to_string()),
        other => Param::Other(format!("{other:?}")),
    }
}

/// Relies on the shape of `rorm_sql` build output: statement text paired
/// with its bound parameters, converted one for one.
#[verifier::external_body]
fn statement_of(s: (String, Vec<Value<'_>>)) -> Statement {
    Statement { text: s.0, params: s.1.into_iter().map(param_of).collect() }
}

/// Relies on `rorm_sql::DBImpl::create_table`, `CreateTable::add_column`,
/// `if_not_exists` and `build`: the statements for CREATE TABLE .. IF NOT
/// EXISTS with the given columns, a pure function of dialect, table name
/// and columns. `rorm_sql` joins the column list and needs at least one
/// column, so an empty one stays out.
#[verifier::external_body]
pub(crate) fn create_table_call(d: Dialect, table: &str, fields: &Vec<Field>) -> (r: Result<
    Vec<Statement>,
    String,
>)
    requires
        fields@.len() > 0,
    ensures
        r is Ok <==> create_table_sql(d, table@, field_views(fields@)) is Ok,
        r is Ok ==> statement_views(r->Ok_0@) == create_table_sql(
            d,
            table@,
            field_views(fields@),
        )->Ok_0,
        r is Err ==> r->Err_0@ == create_table_sql(d, table@, field_views(fields@))->Err_0,
{
    let db = db_of(d);
    let anns: Vec<Vec<rorm_declaration::imr::Annotation>> = fields.iter().map(|f| imr_annotations(
        &f.annotations,
    )).collect();
    let mut t = db.create_table(table).if_not_exists();
    for (f, a) in fields.iter().zip(anns.iter()) {
        t = t.add_column(db.create_column(table, f.name.as_str(), imr_db_type(f.db_type), a));
    }
    match t.build() {
        Ok(v) => Ok(v.into_iter().map(statement_of).collect()),
        Err(SqlError::SQLBuildError(e)) => Err(e),
    }
}

/// Relies on `rorm_sql::DBImpl::alter_table`, `DBImpl::create_column` and
/// `AlterTable::build`: the statements for one ALTER TABLE change, a pure
/// function of dialect, table name and change.
#[verifier::external_body]
fn alter_table_call(d: Dialect, table: &str, change: &TableChange) -> (r: Result<
    Vec<Statement>,
    String,
>)
    ensures
        r is Ok <==> alter_table_sql(d, table@, change@) is Ok,
        r is Ok ==> statement_views(r->Ok_0@) == alter_table_sql(d, table@, change@)->Ok_0,
        r is Err ==> r->Err_0@ == alter_table_sql(d, table@, change@)->Err_0,
{
    let op = match change {
        TableChange::RenameTable { new } => AltOp::RenameTo { name: new.clone() },
        TableChange::RenameColumn { old, new } => AltOp::RenameColumnTo { column_name: old.clone(), new_column_name: new.clone() },
        TableChange::AddColumn { field } => return add_column_call(d, table, field),
        TableChange::DropColumn { name } => AltOp::DropColumn { name: name.clone() },
    };
    match db_of(d).alter_table(table, op).build() {
        Ok(v) => Ok(v.into_iter().map(statement_of).collect()),
        Err(SqlError::SQLBuildError(e)) => Err(e),
    }
}

/// Relies on `rorm_sql::DBImpl::alter_table` with an ADD COLUMN change,
/// `DBImpl::create_column` and `AlterTable::build`: a pure function of
/// dialect, table name and column.
#[verifier::external_body]
fn add_column_call(d: Dialect, table: &str, field: &Field) -> (r: Result<Vec<Statement>, String>)
    ensures
        r is Ok <==> alter_table_sql(d, table@, TableChangeV::AddColumn { field: field@ }) is Ok,
        r is Ok ==> statement_views(r->Ok_0@) == alter_table_sql(
            d,
            table@,
            TableChangeV::AddColumn { field: field@ },
        )->Ok_0,
        r is Err ==> r->Err_0@ == alter_table_sql(
            d,
            table@,
            TableChangeV::AddColumn { field: field@ },
        )->Err_0,
{
    let anns = imr_annotations(&field.annotations);
    let col = db_of(d).create_column(table, &field.name, imr_db_type(field.db_type), &anns);
    match db_of(d).alter_table(table, AltOp::AddColumn { operation: col }).build() {
        Ok(v) => Ok(v.into_iter().map(statement_of).collect()),
        Err(SqlError::SQLBuildError(e)) => Err(e),
    }
}

/// Relies on `rorm_sql::DBImpl::drop_table` and `DropTable::build`: one
/// format line per dialect, stated exactly.
#[verifier::external_body]
fn drop_table_call(d: Dialect, table: &str) -> (r: String)
    ensures
        r@ == drop_table_text(d, table@),
{
    db_of(d).drop_table(table).build()
}

/// Relies on `rorm_sql::DBImpl::insert`, `Insert::rollback_transaction` and
/// `Insert::build`: for one row of one column the output is one format
/// line per dialect, stated exactly.
#[verifier::external_body]
pub(crate) fn tracking_insert_call(d: Dialect, table: &str, migration_id: u16) -> (r: Statement)
    ensures
        r@ == tracking_insert_stmt(d, table@, migration_id),
{
    let values = [Value::I32(migration_id as i32)];
    let rows: &[&[Value]] = &[&values];
    let columns = ["migration_id"];
    let (text, params) = db_of(d).insert(table, &columns, rows, None).rollback_transaction().build();
    statement_of((text, params))
}

/// The raw statement text an author wrote for the given dialect.
pub open spec fn raw_sql_for(
    d: Dialect,
    sqlite: Seq<char>,
    mysql: Seq<char>,
    postgres: Seq<char>,
) -> Seq<char> {
    match d {
        Dialect::SQLite => sqlite,
        Dialect::MySQL => mysql,
        Dialect::Postgres => postgres,
    }
}

/// The ordered statements one operation maps to on one dialect, or the
/// builder's error message. A pure function: the same dialect and operation
/// always map to the same statements.
pub open spec fn op_statements(d: Dialect, op: OperationV) -> Result<Seq<StatementV>, Seq<char>> {
    match op {
        OperationV::CreateModel { name, fields } => if fields.len() == 0 {
            Err("cannot create a model without fields"@)
        } else {
            create_table_sql(d, name, fields)
        },
        OperationV::RenameModel { old, new } => alter_table_sql(
            d,
            old,
            TableChangeV::RenameTable { new },
        ),
        OperationV::DeleteModel { name } => Ok(
            seq![StatementV { text: drop_table_text(d, name), params: Seq::empty() }],
        ),
        OperationV::CreateField { model, field } => alter_table_sql(
            d,
            model,
            TableChangeV::AddColumn { field },
        ),
        OperationV::RenameField { table_name, old, new } => alter_table_sql(
            d,
            table_name,
            TableChangeV::RenameColumn { old, new },
        ),
        OperationV::DeleteField { model, name } => alter_table_sql(
            d,
            model,
            TableChangeV::DropColumn { name },
        ),
        OperationV::RawSQL { sqlite, mysql, postgres } => Ok(
            seq![
                StatementV {
                    text: raw_sql_for(d, sqlite, mysql, postgres),
                    params: Seq::empty(),
                },
            ],
        ),
    }
}

/// Build the ordered statements for one operation on one dialect.
///
/// The result is pinned to [`op_statements`], a function of dialect and
/// operation alone: building the same pair twice yields identical
/// statements and parameters.
pub fn build_operation(d: Dialect, op: &Operation) -> (r: Result<Vec<Statement>, BuildError>)
    ensures
        r is Ok <==> op_statements(d, op@) is Ok,
        r is Ok ==> statement_views(r->Ok_0@) == op_statements(d, op@)->Ok_0,
        r is Err ==> r->Err_0.message@ == op_statements(d, op@)->Err_0,
{
    match op {
        Operation::CreateModel { name, fields } => {
            if fields.len() == 0 {
                return Err(
                    BuildError { message: String::from_str("cannot create a model without fields") },
                );
            }
            match create_table_call(d, name.as_str(), fields) {
                Ok(v) => Ok(v),
                Err(message) => Err(BuildError { message }),
            }
        },
        Operation::RenameModel { old, new } => {
            let change = TableChange::RenameTable { new: new.clone() };
            match alter_table_call(d, old.as_str(), &change) {
                Ok(v) => Ok(v),
                Err(message) => Err(BuildError { message }),
            }
        },
        Operation::DeleteModel { name } => {
            let text = drop_table_call(d, name.as_str());
            let mut v: Vec<Statement> = Vec::new();
            v.push(Statement { text, params: Vec::new() });
            proof {
                assert(statement_views(v@) =~= seq![
                    StatementV { text: drop_table_text(d, name@), params: Seq::empty() },
                ]) by {
                    assert(v@[0]@.params =~= Seq::<ParamV>::empty());
                }
            }
            Ok(v)
        },
        Operation::CreateField { model, field } => {
            let change = TableChange::AddColumn { field: field.clone() };
            match alter_table_call(d, model.as_str(), &change) {
                Ok(v) => Ok(v),
                Err(message) => Err(BuildError { message }),
            }
        },
        Operation::RenameField { table_name, old, new } => {
            let change = TableChange::RenameColumn { old: old.clone(), new: new.clone() };
            match alter_table_call(d, table_name.as_str(), &change) {
                Ok(v) => Ok(v),
                Err(message) => Err(BuildError { message }),
            }
        },
        Operation::DeleteField { model, name } => {
            let change = TableChange::DropColumn { name: name.clone() };
            match alter_table_call(d, model.as_str(), &change) {
                Ok(v) => Ok(v),
                Err(message) => Err(BuildError { message }),
            }
        },
        Operation::RawSQL { sqlite, mysql, postgres } => {
            let text = match d {
                Dialect::SQLite => sqlite.clone(),
                Dialect::MySQL => mysql.clone(),
                Dialect::Postgres => postgres.clone(),
            };
            let mut v: Vec<Statement> = Vec::new();
            v.push(Statement { text, params: Vec::new() });
            proof {
                assert(statement_views(v@) =~= seq![
                    StatementV {
                        text: raw_sql_for(d, sqlite@, mysql@, postgres@),
                        params: Seq::empty(),
                    },
                ]) by {
                    assert(v@[0]@.params =~= Seq::<ParamV>::empty());
                }
            }
            Ok(v)
        },
    }
}

/// The ordered statements of a whole operation sequence, starting at `i`:
/// the statements of each operation in turn, or the first error.
pub open spec fn migration_sql_from(d: Dialect, ops: Seq<OperationV>, i: int) -> Result<
    Seq<StatementV>,
    Seq<char>,
>
    decreases ops.len() - i,
{
    if i < 0 || i >= ops.len() {
        Ok(Seq::empty())
    } else {
        match op_statements(d, ops[i]) {
            Err(e) => Err(e),
            Ok(stmts) => match migration_sql_from(d, ops, i + 1) {
                Err(e) => Err(e),
                Ok(rest) => Ok(stmts + rest),
            },
        }
    }
}

/// The ordered statements a whole migration maps to on one dialect, or the
/// first error. A pure function of dialect and operations.
pub open spec fn migration_sql(d: Dialect, ops: Seq<OperationV>) -> Result<
    Seq<StatementV>,
    Seq<char>,
> {
    migration_sql_from(d, ops, 0)
}

/// Build every statement of a migration, in operation order and, within an
/// operation, in the builder's order.
///
/// The result is pinned to [`migration_sql`], a function of dialect and
/// operations alone: building the same migration twice on the same dialect
/// yields identical statements and parameters.
pub fn migration_statements(d: Dialect, m: &Migration) -> (r: Result<Vec<Statement>, BuildError>)
    ensures
        r is Ok <==> migration_sql(d, m@.operations) is Ok,
        r is Ok ==> statement_views(r->Ok_0@) == migration_sql(d, m@.operations)->Ok_0,
        r is Err ==> r->Err_0.message@ == migration_sql(d, m@.operations)->Err_0,
{
    let ghost opv = m@.operations;
    let mut acc: Vec<Statement> = Vec::new();
    let mut i: usize = 0;
    let n = m.operations.len();
    proof {
        assert(statement_views(acc@) =~= Seq::<StatementV>::empty());
    }
    while i < n
        invariant
            opv == m@.operations,
            n == opv.len(),
            i <= n,
            migration_sql_from(d, opv, i as int) is Ok ==> migration_sql(d, opv) == Ok::<
                Seq<StatementV>,
                Seq<char>,
            >(statement_views(acc@) + migration_sql_from(d, opv, i as int)->Ok_0),
            migration_sql_from(d, opv, i as int) is Err ==> migration_sql(d, opv)
                == migration_sql_from(d, opv, i as int),
        decreases n - i,
    {
        assert(m.operations@[i as int]@ == opv[i as int]) by {
            assert(opv == crate::model::operation_views(m.operations@));
        }
        match build_operation(d, &m.operations[i]) {
            Ok(stmts) => {
                let ghost old_acc = acc@;
                let mut stmts = stmts;
                let ghost sv = statement_views(stmts@);
                let mut j: usize = 0;
                while j < stmts.len()
                    invariant
                        sv == statement_views(stmts@),
                        j <= stmts@.len(),
                        statement_views(acc@) == statement_views(old_acc) + sv.take(j as int),
                    decreases stmts@.len() - j,
                {
                    let ghost before = acc@;
                    let s = Statement {
                        text: stmts[j].text.clone(),
                        params: clone_params(&stmts[j].params),
                    };
                    assert(s@ == sv[j as int]);
                    acc.push(s);
                    proof {
                        assert(statement_views(acc@) =~= statement_views(before).push(
                            sv[j as int],
                        ));
                        assert(statement_views(old_acc) + sv.take(j + 1 as int) =~= (
                        statement_views(old_acc) + sv.take(j as int)).push(sv[j as int]));
                    }
                    j += 1;
                }
                proof {
                    assert(sv.take(sv.len() as int) =~= sv);
                    assert(statement_views(acc@) == statement_views(old_acc) + sv);
                    assert(statement_views(old_acc) + (sv + migration_sql_from(
                        d,
                        opv,
                        i + 1 as int,
                    )->Ok_0) =~= (statement_views(old_acc) + sv) + migration_sql_from(
                        d,
                        opv,
                        i + 1 as int,
                    )->Ok_0);
                }
            },
            Err(e) => {
                return Err(e);
            },
        }
        i += 1;
    }
    proof {
        assert(statement_views(acc@) + Seq::<StatementV>::empty() =~= statement_views(acc@));
    }
    Ok(acc)
}

/// Copy a vector of parameters, element for element.
fn clone_params(v: &Vec<Param>) -> (r: Vec<Param>)
    ensures
        r@.map_values(|p: Param| p@) == v@.map_values(|p: Param| p@),
{
    let mut r: Vec<Param> = Vec::new();
    let mut i: usize = 0;
    while i < v.len()
        invariant
            i <= v@.len(),
            r@.map_values(|p: Param| p@) == v@.take(i as int).map_values(|p: Param| p@),
        decreases v@.len() - i,
    {
        let p = match &v[i] {
            Param::Null => Param::Null,
            Param::Str(s) => Param::Str(s.clone()),
            Param::I64(x) => Param::I64(*x),
            Param::I32(x) => Param::I32(*x),
            Param::I16(x) => Param::I16(*x),
            Param::Bool(x) => Param::Bool(*x),
            Param::Bytes(b) => Param::Bytes(clone_bytes(b)),
            Param::Ident(s) => Param::Ident(s.clone()),
            Param::Other(s) => Param::Other(s.clone()),
        };
        assert(p@ == v@[i as int]@);
        let ghost before = r@;
        r.push(p);
        proof {
            assert(r@.map_values(|p: Param| p@) =~= before.map_values(|p: Param| p@).push(
                v@[i as int]@,
            ));
            assert(v@.take(i + 1 as int).map_values(|p: Param| p@) =~= v@.take(
                i as int,
            ).map_values(|p: Param| p@).push(v@[i as int]@));
        }
        i += 1;
    }
    proof {
        assert(v@.take(v@.len() as int) =~= v@);
    }
    r
}

/// Copy a byte vector.
fn clone_bytes(v: &Vec<u8>) -> (r: Vec<u8>)
    ensures
        r@ == v@,
{
    let mut r: Vec<u8> = Vec::new();
    let mut i: usize = 0;
    while i < v.len()
        invariant
            i <= v@.len(),
            r@ == v@.take(i as int),
        decreases v@.len() - i,
    {
        r.push(v[i]);
        proof {
            assert(v@.take(i + 1 as int) =~= v@.take(i as int).push(v@[i as int]));
        }
        i += 1;
    }
    proof {
        assert(v@.take(v@.len() as int) =~= v@);
    }
    r
}

} // verus!
