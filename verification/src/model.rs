//! The dialect-neutral data model: dialects, column types, annotations,
//! fields, operations and migrations.

use vstd::prelude::*;

verus! {

/// A database backend whose SQL syntax the statement builder targets.
#[derive(Clone, Copy, Debug, PartialEq, Eq, Structural)]
pub enum Dialect {
    /// SQLite
    SQLite,
    /// MySQL / MariaDB
    MySQL,
    /// PostgreSQL
    Postgres,
}

/// The semantic database type of a column.
#[derive(Clone, Copy, Debug, PartialEq, Eq, Structural)]
pub enum ColumnType {
    /// Variable-length character type; its length comes from [`FieldAnnotation::MaxLength`]
    VarChar,
    /// Binary blob
    Binary,
    /// 8 bit signed integer
    Int8,
    /// 16 bit signed integer
    Int16,
    /// 32 bit signed integer
    Int32,
    /// 64 bit signed integer
    Int64,
    /// Single precision floating point number
    Float,
    /// Double precision floating point number
    Double,
    /// Boolean
    Boolean,
    /// Calendar date
    Date,
    /// Date and time of day
    DateTime,
    /// Point on the time line
    Timestamp,
    /// Time of day
    Time,
    /// UUID
    Uuid,
}

/// A structural constraint attached to a field.
///
/// Annotations form a set: a duplicate carries no extra meaning.
#[derive(Clone, Copy, Debug, PartialEq, Eq, Structural)]
pub enum FieldAnnotation {
    /// Set the current time when a row is created
    AutoCreateTime,
    /// Set the current time when a row is updated
    AutoUpdateTime,
    /// Auto-increment the column
    AutoIncrement,
    /// Bound the length of the column's content
    MaxLength(i32),
    /// NOT NULL constraint
    NotNull,
    /// Use the column as primary key
    PrimaryKey,
    /// UNIQUE constraint
    Unique,
}

/// A column of a model: its name, semantic type and constraint set.
#[derive(Debug, PartialEq)]
pub struct Field {
    /// Name of the column, unique within its owning model
    pub name: String,
    /// Semantic database type of the column
    pub db_type: ColumnType,
    /// Structural constraints of the column
    pub annotations: Vec<FieldAnnotation>,
}

/// One atomic structural change. Order within a migration is significant and
/// defines replay order; an operation is immutable once created.
#[derive(Debug, PartialEq)]
pub enum Operation {
    /// Create a table with an ordered list of columns
    CreateModel {
        /// Name of the model
        name: String,
        /// Ordered columns of the model
        fields: Vec<Field>,
    },
    /// Rename a table
    RenameModel {
        /// Current name of the model
        old: String,
        /// New name of the model
        new: String,
    },
    /// Drop a table
    DeleteModel {
        /// Name of the model
        name: String,
    },
    /// Add a column to an existing table
    CreateField {
        /// Name of the model
        model: String,
        /// The column to add
        field: Field,
    },
    /// Rename a column
    RenameField {
        /// Name of the table the column lives in
        table_name: String,
        /// Current name of the column
        old: String,
        /// New name of the column
        new: String,
    },
    /// Drop a column
    DeleteField {
        /// Name of the model
        model: String,
        /// Name of the column to drop
        name: String,
    },
    /// A raw statement, written once per dialect; the builder picks the
    /// text matching the active dialect and ignores the others
    RawSQL {
        /// Statement text for SQLite
        sqlite: String,
        /// Statement text for MySQL
        mysql: String,
        /// Statement text for PostgreSQL
        postgres: String,
    },
}

/// An immutable, uniquely numbered, ordered bundle of operations.
///
/// The id is the single source of truth for apply order. The predecessor set
/// holds the ids this migration directly builds on: the previous id for an
/// ordinary migration, several ids for a merge migration, nothing for the
/// first migration.
#[derive(Debug, PartialEq)]
pub struct Migration {
    /// Unique, totally ordered identity of the migration
    pub id: u16,
    /// Human-readable, purely cosmetic name
    pub name: String,
    /// Ids of the migrations this one directly builds on, each smaller
    /// than the migration's own id
    pub predecessors: Vec<u16>,
    /// The ordered operations to replay
    pub operations: Vec<Operation>,
}

/// The mathematical value of a [`Field`].
pub ghost struct FieldV {
    /// Name of the column
    pub name: Seq<char>,
    /// Semantic database type of the column
    pub db_type: ColumnType,
    /// Structural constraints of the column
    pub annotations: Seq<FieldAnnotation>,
}

impl View for Field {
    type V = FieldV;

    open spec fn view(&self) -> FieldV {
        FieldV { name: self.name@, db_type: self.db_type, annotations: self.annotations@ }
    }
}

/// The views of a sequence of fields, in the same order.
pub open spec fn field_views(s: Seq<Field>) -> Seq<FieldV> {
    s.map_values(|f: Field| f@)
}

/// The mathematical value of an [`Operation`].
pub ghost enum OperationV {
    /// Create a table with an ordered list of columns
    CreateModel { name: Seq<char>, fields: Seq<FieldV> },
    /// Rename a table
    RenameModel { old: Seq<char>, new: Seq<char> },
    /// Drop a table
    DeleteModel { name: Seq<char> },
    /// Add a column to an existing table
    CreateField { model: Seq<char>, field: FieldV },
    /// Rename a column
    RenameField { table_name: Seq<char>, old: Seq<char>, new: Seq<char> },
    /// Drop a column
    DeleteField { model: Seq<char>, name: Seq<char> },
    /// A raw statement, written once per dialect
    RawSQL { sqlite: Seq<char>, mysql: Seq<char>, postgres: Seq<char> },
}

impl View for Operation {
    type V = OperationV;

    open spec fn view(&self) -> OperationV {
        match self {
            Operation::CreateModel { name, fields } => OperationV::CreateModel {
                name: name@,
                fields: field_views(fields@),
            },
            Operation::RenameModel { old, new } => OperationV::RenameModel {
                old: old@,
                new: new@,
            },
            Operation::DeleteModel { name } => OperationV::DeleteModel { name: name@ },
            Operation::CreateField { model, field } => OperationV::CreateField {
                model: model@,
                field: field@,
            },
            Operation::RenameField { table_name, old, new } => OperationV::RenameField {
                table_name: table_name@,
                old: old@,
                new: new@,
            },
            Operation::DeleteField { model, name } => OperationV::DeleteField {
                model: model@,
                name: name@,
            },
            Operation::RawSQL { sqlite, mysql, postgres } => OperationV::RawSQL {
                sqlite: sqlite@,
                mysql: mysql@,
                postgres: postgres@,
            },
        }
    }
}

/// The views of a sequence of operations, in the same order.
pub open spec fn operation_views(s: Seq<Operation>) -> Seq<OperationV> {
    s.map_values(|o: Operation| o@)
}

/// The mathematical value of a [`Migration`].
pub ghost struct MigrationV {
    /// Unique identity of the migration
    pub id: u16,
    /// Cosmetic name of the migration
    pub name: Seq<char>,
    /// Ids this migration directly builds on
    pub predecessors: Seq<u16>,
    /// The ordered operations to replay
    pub operations: Seq<OperationV>,
}

impl View for Migration {
    type V = MigrationV;

    open spec fn view(&self) -> MigrationV {
        MigrationV {
            id: self.id,
            name: self.name@,
            predecessors: self.predecessors@,
            operations: operation_views(self.operations@),
        }
    }
}

/// The views of a sequence of migrations, in the same order.
pub open spec fn migration_views(s: Seq<Migration>) -> Seq<MigrationV> {
    s.map_values(|m: Migration| m@)
}

/// Copy a vector of annotations, element for element.
pub fn clone_annotations(v: &Vec<FieldAnnotation>) -> (r: Vec<FieldAnnotation>)
    ensures
        r@ == v@,
{
    let mut r: Vec<FieldAnnotation> = Vec::new();
    let mut i: usize = 0;
    while i < v.len()
        invariant
            i <= v@.len(),
            r@ == v@.take(i as int),
        decreases v@.len() - i,
    {
        r.push(v[i]);
        proof {
            assert(v@.take(i + 1 as int) =~= v@.take(i as int).push(v@[i as int]));
        }
        i += 1;
    }
    proof {
        assert(v@.take(v@.len() as int) =~= v@);
    }
    r
}

impl Clone for Field {
    /// A clone has the same mathematical value as the original.
    fn clone(&self) -> (r: Self)
        ensures
            r@ == self@,
    {
        Field {
            name: self.name.clone(),
            db_type: self.db_type,
            annotations: clone_annotations(&self.annotations),
        }
    }
}

/// Copy a vector of fields, element for element.
pub fn clone_fields(v: &Vec<Field>) -> (r: Vec<Field>)
    ensures
        field_views(r@) == field_views(v@),
{
    let mut r: Vec<Field> = Vec::new();
    let mut i: usize = 0;
    while i < v.len()
        invariant
            i <= v@.len(),
            field_views(r@) == field_views(v@.take(i as int)),
        decreases v@.len() - i,
    {
        let ghost prev = r@;
        r.push(v[i].clone());
        proof {
            assert(field_views(r@) =~= field_views(prev).push(v@[i as int]@));
            assert(field_views(v@.take(i + 1 as int)) =~= field_views(v@.take(i as int)).push(
                v@[i as int]@,
            ));
        }
        i += 1;
    }
    proof {
        assert(v@.take(v@.len() as int) =~= v@);
    }
    r
}

impl Clone for Operation {
    /// A clone has the same mathematical value as the original.
    fn clone(&self) -> (r: Self)
        ensures
            r@ == self@,
    {
        match self {
            Operation::CreateModel { name, fields } => Operation::CreateModel {
                name: name.clone(),
                fields: clone_fields(fields),
            },
            Operation::RenameModel { old, new } => Operation::RenameModel {
                old: old.clone(),
                new: new.clone(),
            },
            Operation::DeleteModel { name } => Operation::DeleteModel { name: name.clone() },
            Operation::CreateField { model, field } => Operation::CreateField {
                model: model.clone(),
                field: field.clone(),
            },
            Operation::RenameField { table_name, old, new } => Operation::RenameField {
                table_name: table_name.clone(),
                old: old.clone(),
                new: new.clone(),
            },
            Operation::DeleteField { model, name } => Operation::DeleteField {
                model: model.clone(),
                name: name.clone(),
            },
            Operation::RawSQL { sqlite, mysql, postgres } => Operation::RawSQL {
                sqlite: sqlite.clone(),
                mysql: mysql.clone(),
                postgres: postgres.clone(),
            },
        }
    }
}

/// Copy a vector of ids, element for element.
pub fn clone_ids(v: &Vec<u16>) -> (r: Vec<u16>)
    ensures
        r@ == v@,
{
    let mut r: Vec<u16> = Vec::new();
    let mut i: usize = 0;
    while i < v.len()
        invariant
            i <= v@.len(),
            r@ == v@.take(i as int),
        decreases v@.len() - i,
    {
        r.push(v[i]);
        proof {
            assert(v@.take(i + 1 as int) =~= v@.take(i as int).push(v@[i as int]));
        }
        i += 1;
    }
    proof {
        assert(v@.take(v@.len() as int) =~= v@);
    }
    r
}

/// Copy a vector of operations, element for element.
pub fn clone_operations(v: &Vec<Operation>) -> (r: Vec<Operation>)
    ensures
        operation_views(r@) == operation_views(v@),
{
    let mut r: Vec<Operation> = Vec::new();
    let mut i: usize = 0;
    while i < v.len()
        invariant
            i <= v@.len(),
            operation_views(r@) == operation_views(v@.take(i as int)),
        decreases v@.len() - i,
    {
        let ghost prev = r@;
        r.push(v[i].clone());
        proof {
            assert(operation_views(r@) =~= operation_views(prev).push(v@[i as int]@));
            assert(operation_views(v@.take(i + 1 as int)) =~= operation_views(
                v@.take(i as int),
            ).push(v@[i as int]@));
        }
        i += 1;
    }
    proof {
        assert(v@.take(v@.len() as int) =~= v@);
    }
    r
}

impl Clone for Migration {
    /// A clone has the same mathematical value as the original.
    fn clone(&self) -> (r: Self)
        ensures
            r@ == self@,
    {
        Migration {
            id: self.id,
            name: self.name.clone(),
            predecessors: clone_ids(&self.predecessors),
            operations: clone_operations(&self.operations),
        }
    }
}


/// The fields with every field of the old name renamed to the new one.
pub open spec fn renamed_fields(fields: Seq<FieldV>, old: Seq<char>, new: Seq<char>) -> Seq<FieldV> {
    fields.map_values(
        |f: FieldV|
            if f.name == old {
                FieldV { name: new, db_type: f.db_type, annotations: f.annotations }
            } else {
                f
            },
    )
}

/// The fields without those of the given name.
pub open spec fn dropped_fields(fields: Seq<FieldV>, name: Seq<char>) -> Seq<FieldV> {
    fields.filter(|f: FieldV| f.name != name)
}

/// The ids of a sequence of migrations, in the same order.
pub open spec fn migration_ids(s: Seq<MigrationV>) -> Seq<u16> {
    s.map_values(|m: MigrationV| m.id)
}

/// A sequence of ids is strictly increasing: later entries are larger.
pub open spec fn strictly_increasing(s: Seq<u16>) -> bool {
    forall|i: int, j: int| 0 <= i < j < s.len() ==> s[i] < s[j]
}

/// Every predecessor of the migration is strictly earlier than the migration.
pub open spec fn predecessors_earlier(m: MigrationV) -> bool {
    forall|k: int| 0 <= k < m.predecessors.len() ==> m.predecessors[k] < m.id
}

} // verus!
