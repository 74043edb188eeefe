use vstd::prelude::*;
use vstd::string::StringExecFns;

use crate::schema::{
    create_sql, Column, ColumnType, ColumnView, ForeignKey, ForeignKeyView, Table, TableView,
};

verus! {

/// Whether a migration builds the schema up or takes it down.
#[derive(Clone, Copy, PartialEq, Eq, Structural, Debug)]
pub enum MigrationKind {
    Up,
    Down,
}

/// Why a list of migrations was not applied.
#[derive(Clone, Copy, PartialEq, Eq, Structural, Debug)]
pub enum MigrationError {
    /// A version that is zero or negative.
    NonPositiveVersion(i64),
    /// A version equal to the one before it.
    DuplicateVersion(i64),
    /// A version below the one before it.
    VersionOutOfOrder(i64),
    /// The migration of this version creates a table whose foreign key names a table
    /// that does not exist yet.
    MissingReference(i64),
}

/// A versioned change to the schema: the table it creates.
pub struct SchemaChange {
    pub version: i64,
    pub description: String,
    pub table: Table,
    pub kind: MigrationKind,
}

/// A versioned change as the statement that performs it.
pub struct Migration {
    pub version: i64,
    pub description: String,
    pub sql: String,
    pub kind: MigrationKind,
}

/// What a schema change holds, as plain values.
pub ghost struct SchemaChangeView {
    pub version: i64,
    pub description: Seq<char>,
    pub table: TableView,
    pub kind: MigrationKind,
}

impl View for SchemaChange {
    type V = SchemaChangeView;

    open spec fn view(&self) -> SchemaChangeView {
        SchemaChangeView {
            version: self.version,
            description: self.description@,
            table: self.table@,
            kind: self.kind,
        }
    }
}

/// A column of the given name, type and constraints.
pub open spec fn column(name: Seq<char>, ty: ColumnType, not_null: bool, primary_key: bool) -> ColumnView {
    ColumnView { name, ty, not_null, primary_key }
}

/// The table of source images.
pub open spec fn base_images_view() -> TableView {
    TableView {
        name: "base_images"@,
        columns: seq![
            column("id"@, ColumnType::Text, false, true),
            column("name"@, ColumnType::Text, true, false),
            column("aspect_ratio"@, ColumnType::Real, true, false),
            column("height"@, ColumnType::Integer, true, false),
            column("width"@, ColumnType::Integer, true, false),
            column("thumbnail_path"@, ColumnType::Text, true, false),
            column("file_prefix"@, ColumnType::Text, false, false),
        ],
        foreign_keys: seq![],
    }
}

/// The table of templates, each of which belongs to one base image and goes with it.
pub open spec fn templates_view() -> TableView {
    TableView {
        name: "templates"@,
        columns: seq![
            column("id"@, ColumnType::Text, false, true),
            column("name"@, ColumnType::Text, true, false),
            column("base_id"@, ColumnType::Text, true, false),
            column("template_path"@, ColumnType::Text, true, false),
            column("file_suffix"@, ColumnType::Text, false, false),
        ],
        foreign_keys: seq![
            ForeignKeyView {
                column: "base_id"@,
                table: "base_images"@,
                target: "id"@,
                on_delete_cascade: true,
            },
        ],
    }
}

/// The application's schema history, oldest first.
pub open spec fn schema_history() -> Seq<SchemaChangeView> {
    seq![
        SchemaChangeView {
            version: 1,
            description: "create base_images table"@,
            table: base_images_view(),
            kind: MigrationKind::Up,
        },
        SchemaChangeView {
            version: 2,
            description: "create templates table"@,
            table: templates_view(),
            kind: MigrationKind::Up,
        },
    ]
}

/// What is wrong with the version at `k`, judged against the one before it.
pub open spec fn version_fault(vs: Seq<i64>, k: int) -> Option<MigrationError> {
    if vs[k] <= 0 {
        Some(MigrationError::NonPositiveVersion(vs[k]))
    } else if k > 0 && vs[k] == vs[k - 1] {
        Some(MigrationError::DuplicateVersion(vs[k]))
    } else if k > 0 && vs[k] < vs[k - 1] {
        Some(MigrationError::VersionOutOfOrder(vs[k]))
    } else {
        None
    }
}

/// The first fault among the versions from `k` on.
pub open spec fn first_fault(vs: Seq<i64>, k: int) -> Option<MigrationError>
    decreases vs.len() - k,
{
    if k < 0 || k >= vs.len() {
        None
    } else if version_fault(vs, k) is Some {
        version_fault(vs, k)
    } else {
        first_fault(vs, k + 1)
    }
}

/// Positive and strictly increasing.
pub open spec fn versions_valid(vs: Seq<i64>) -> bool {
    forall|k: int| 0 <= k < vs.len() ==> #[trigger] vs[k] > 0 && (k > 0 ==> vs[k - 1] < vs[k])
}

/// The versions of the changes, in order.
pub open spec fn versions_of(cs: Seq<SchemaChangeView>) -> Seq<i64> {
    cs.map_values(|c: SchemaChangeView| c.version)
}

proof fn lemma_first_fault_none(vs: Seq<i64>, k: int)
    requires
        0 <= k <= vs.len(),
        first_fault(vs, k) is None,
    ensures
        forall|j: int| k <= j < vs.len() ==> version_fault(vs, j) is None,
    decreases vs.len() - k,
{
    if k < vs.len() {
        lemma_first_fault_none(vs, k + 1);
    }
}

/// The versions are accepted exactly when they are positive and strictly increasing;
/// the error names the first version that breaks this.
pub fn check_versions(versions: &Vec<i64>) -> (r: Result<(), MigrationError>)
    ensures
        r is Ok <==> versions_valid(versions@),
        r is Ok <==> first_fault(versions@, 0) is None,
        r is Err ==> r == Err::<(), MigrationError>(first_fault(versions@, 0)->Some_0),
{
    let mut i: usize = 0;
    while i < versions.len()
        invariant
            i <= versions.len(),
            first_fault(versions@, 0) == first_fault(versions@, i as int),
            forall|k: int| 0 <= k < i ==> version_fault(versions@, k) is None,
        decreases versions.len() - i,
    {
        let v = versions[i];
        if v <= 0 {
            return Err(MigrationError::NonPositiveVersion(v));
        }
        if i > 0 && v == versions[i - 1] {
            return Err(MigrationError::DuplicateVersion(v));
        }
        if i > 0 && v < versions[i - 1] {
            return Err(MigrationError::VersionOutOfOrder(v));
        }
        i = i + 1;
    }
    proof {
        assert forall|k: int| 0 <= k < versions@.len() implies #[trigger] versions@[k] > 0 && (k > 0
            ==> versions@[k - 1] < versions@[k]) by {
            assert(version_fault(versions@, k) is None);
        }
    }
    Ok(())
}

impl SchemaChange {
    /// The change as the statement that performs it.
    pub fn to_migration(&self) -> (r: Migration)
        ensures
            r.version == self.version,
            r.description@ == self.description@,
            r.sql@ == create_sql(self.table@),
            r.kind == self.kind,
    {
        Migration {
            version: self.version,
            description: self.description.clone(),
            sql: self.table.create_sql(),
            kind: self.kind,
        }
    }
}

/// The table of source images.
pub fn base_images_table() -> (r: Table)
    ensures
        r@ == base_images_view(),
{
    let mut t = Table::new("base_images");
    t.add_column(Column::new("id", ColumnType::Text, false, true));
    t.add_column(Column::new("name", ColumnType::Text, true, false));
    t.add_column(Column::new("aspect_ratio", ColumnType::Real, true, false));
    t.add_column(Column::new("height", ColumnType::Integer, true, false));
    t.add_column(Column::new("width", ColumnType::Integer, true, false));
    t.add_column(Column::new("thumbnail_path", ColumnType::Text, true, false));
    t.add_column(Column::new("file_prefix", ColumnType::Text, false, false));
    proof {
        assert(t@.columns =~= base_images_view().columns);
        assert(t@.foreign_keys =~= base_images_view().foreign_keys);
    }
    t
}

/// The table of templates, each of which belongs to one base image and goes with it.
pub fn templates_table() -> (r: Table)
    ensures
        r@ == templates_view(),
{
    let mut t = Table::new("templates");
    t.add_column(Column::new("id", ColumnType::Text, false, true));
    t.add_column(Column::new("name", ColumnType::Text, true, false));
    t.add_column(Column::new("base_id", ColumnType::Text, true, false));
    t.add_column(Column::new("template_path", ColumnType::Text, true, false));
    t.add_column(Column::new("file_suffix", ColumnType::Text, false, false));
    t.add_foreign_key(ForeignKey::new("base_id", "base_images", "id", true));
    proof {
        assert(t@.columns =~= templates_view().columns);
        assert(t@.foreign_keys =~= templates_view().foreign_keys);
    }
    t
}

/// The application's schema history, oldest first.
pub fn schema_changes() -> (r: Vec<SchemaChange>)
    ensures
        r@.map_values(|c: SchemaChange| c@) == schema_history(),
{
    let mut r: Vec<SchemaChange> = Vec::new();
    r.push(
        SchemaChange {
            version: 1,
            description: String::from_str("create base_images table"),
            table: base_images_table(),
            kind: MigrationKind::Up,
        },
    );
    r.push(
        SchemaChange {
            version: 2,
            description: String::from_str("create templates table"),
            table: templates_table(),
            kind: MigrationKind::Up,
        },
    );
    proof {
        assert(r@.map_values(|c: SchemaChange| c@) =~= schema_history());
    }
    r
}

/// The application's migrations as statements, oldest first.
pub fn migrations() -> (r: Vec<Migration>)
    ensures
        r.len() == schema_history().len(),
        forall|k: int|
            0 <= k < r.len() ==> {
                let c = #[trigger] schema_history()[k];
                &&& r@[k].version == c.version
                &&& r@[k].description@ == c.description
                &&& r@[k].sql@ == create_sql(c.table)
                &&& r@[k].kind == c.kind
            },
{
    let changes = schema_changes();
    let mut r: Vec<Migration> = Vec::new();
    let mut i: usize = 0;
    while i < changes.len()
        invariant
            changes@.map_values(|c: SchemaChange| c@) == schema_history(),
            i <= changes.len(),
            r.len() == i,
            forall|k: int|
                0 <= k < i ==> {
                    let c = #[trigger] schema_history()[k];
                    &&& r@[k].version == c.version
                    &&& r@[k].description@ == c.description
                    &&& r@[k].sql@ == create_sql(c.table)
                    &&& r@[k].kind == c.kind
                },
        decreases changes.len() - i,
    {
        let m = changes[i].to_migration();
        proof {
            assert(changes@.map_values(|c: SchemaChange| c@)[i as int] == changes@[i as int]@);
        }
        r.push(m);
        i = i + 1;
    }
    r
}

} // verus!
