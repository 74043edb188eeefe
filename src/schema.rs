use vstd::prelude::*;
use vstd::string::StringExecFns;

verus! {

/// The storage class of a column.
#[derive(Clone, Copy, PartialEq, Eq, Structural, Debug)]
pub enum ColumnType {
    Text,
    Real,
    Integer,
}

/// One column of a table definition.
pub struct Column {
    pub name: String,
    pub ty: ColumnType,
    pub not_null: bool,
    pub primary_key: bool,
}

/// A reference from a column of one table to a column of another.
pub struct ForeignKey {
    pub column: String,
    pub table: String,
    pub target: String,
    pub on_delete_cascade: bool,
}

/// A table: its name, its columns in order, then its foreign keys.
pub struct Table {
    pub name: String,
    pub columns: Vec<Column>,
    pub foreign_keys: Vec<ForeignKey>,
}

/// What a column holds, as plain values.
pub ghost struct ColumnView {
    pub name: Seq<char>,
    pub ty: ColumnType,
    pub not_null: bool,
    pub primary_key: bool,
}

/// What a foreign key holds, as plain values.
pub ghost struct ForeignKeyView {
    pub column: Seq<char>,
    pub table: Seq<char>,
    pub target: Seq<char>,
    pub on_delete_cascade: bool,
}

/// What a table definition holds, as plain values.
pub ghost struct TableView {
    pub name: Seq<char>,
    pub columns: Seq<ColumnView>,
    pub foreign_keys: Seq<ForeignKeyView>,
}

impl View for Column {
    type V = ColumnView;

    open spec fn view(&self) -> ColumnView {
        ColumnView {
            name: self.name@,
            ty: self.ty,
            not_null: self.not_null,
            primary_key: self.primary_key,
        }
    }
}

impl View for ForeignKey {
    type V = ForeignKeyView;

    open spec fn view(&self) -> ForeignKeyView {
        ForeignKeyView {
            column: self.column@,
            table: self.table@,
            target: self.target@,
            on_delete_cascade: self.on_delete_cascade,
        }
    }
}

impl View for Table {
    type V = TableView;

    open spec fn view(&self) -> TableView {
        TableView {
            name: self.name@,
            columns: self.columns@.map_values(|c: Column| c@),
            foreign_keys: self.foreign_keys@.map_values(|f: ForeignKey| f@),
        }
    }
}

/// The keyword that names a storage class.
pub open spec fn type_sql(t: ColumnType) -> Seq<char> {
    match t {
        ColumnType::Text => "TEXT"@,
        ColumnType::Real => "REAL"@,
        ColumnType::Integer => "INTEGER"@,
    }
}

/// The constraint words after a column's type; a primary key is never null.
pub open spec fn constraint_sql(c: ColumnView) -> Seq<char> {
    if c.primary_key {
        " PRIMARY KEY"@
    } else if c.not_null {
        " NOT NULL"@
    } else {
        ""@
    }
}

/// A column's clause: its name, its type, its constraint.
pub open spec fn column_sql(c: ColumnView) -> Seq<char> {
    c.name + " "@ + type_sql(c.ty) + constraint_sql(c)
}

/// A foreign key's clause, with the cascade where it has one.
pub open spec fn foreign_key_sql(f: ForeignKeyView) -> Seq<char> {
    "FOREIGN KEY ("@ + f.column + ") REFERENCES "@ + f.table + "("@ + f.target + ")"@ + (
    if f.on_delete_cascade {
        " ON DELETE CASCADE"@
    } else {
        ""@
    })
}

/// The parts written one after another, `sep` between each two.
pub open spec fn join(parts: Seq<Seq<char>>, sep: Seq<char>) -> Seq<char>
    decreases parts.len(),
{
    if parts.len() == 0 {
        Seq::empty()
    } else if parts.len() == 1 {
        parts[0]
    } else {
        join(parts.drop_last(), sep) + sep + parts.last()
    }
}

/// The clauses between the parentheses of a table's definition.
pub open spec fn clauses(t: TableView) -> Seq<Seq<char>> {
    t.columns.map_values(|c: ColumnView| column_sql(c)) + t.foreign_keys.map_values(
        |f: ForeignKeyView| foreign_key_sql(f),
    )
}

/// The statement that creates the table unless one of that name exists.
pub open spec fn create_sql(t: TableView) -> Seq<char> {
    "CREATE TABLE IF NOT EXISTS "@ + t.name + " ("@ + join(clauses(t), ", "@) + ")"@
}

fn type_keyword(t: ColumnType) -> (r: &'static str)
    ensures
        r@ == type_sql(t),
{
    match t {
        ColumnType::Text => "TEXT",
        ColumnType::Real => "REAL",
        ColumnType::Integer => "INTEGER",
    }
}

impl Column {
    pub fn new(name: &str, ty: ColumnType, not_null: bool, primary_key: bool) -> (r: Column)
        ensures
            r@ == (ColumnView { name: name@, ty, not_null, primary_key }),
    {
        Column { name: String::from_str(name), ty, not_null, primary_key }
    }

    pub fn duplicate(&self) -> (r: Column)
        ensures
            r@ == self@,
    {
        Column {
            name: self.name.clone(),
            ty: self.ty,
            not_null: self.not_null,
            primary_key: self.primary_key,
        }
    }

    /// The column's clause in a `CREATE TABLE` statement.
    pub fn to_sql(&self) -> (r: String)
        ensures
            r@ == column_sql(self@),
    {
        let mut r = self.name.clone();
        r.append(" ");
        r.append(type_keyword(self.ty));
        if self.primary_key {
            r.append(" PRIMARY KEY");
        } else if self.not_null {
            r.append(" NOT NULL");
        } else {
            proof {
                reveal_strlit("");
            }
        }
        proof {
            assert(r@ =~= column_sql(self@));
        }
        r
    }
}

impl ForeignKey {
    pub fn new(column: &str, table: &str, target: &str, on_delete_cascade: bool) -> (r: ForeignKey)
        ensures
            r@ == (ForeignKeyView {
                column: column@,
                table: table@,
                target: target@,
                on_delete_cascade,
            }),
    {
        ForeignKey {
            column: String::from_str(column),
            table: String::from_str(table),
            target: String::from_str(target),
            on_delete_cascade,
        }
    }

    pub fn duplicate(&self) -> (r: ForeignKey)
        ensures
            r@ == self@,
    {
        ForeignKey {
            column: self.column.clone(),
            table: self.table.clone(),
            target: self.target.clone(),
            on_delete_cascade: self.on_delete_cascade,
        }
    }

    /// The key's clause in a `CREATE TABLE` statement.
    pub fn to_sql(&self) -> (r: String)
        ensures
            r@ == foreign_key_sql(self@),
    {
        let mut r = String::from_str("FOREIGN KEY (");
        r.append(self.column.as_str());
        r.append(") REFERENCES ");
        r.append(self.table.as_str());
        r.append("(");
        r.append(self.target.as_str());
        r.append(")");
        if self.on_delete_cascade {
            r.append(" ON DELETE CASCADE");
        } else {
            proof {
                reveal_strlit("");
            }
        }
        proof {
            assert(r@ =~= foreign_key_sql(self@));
        }
        r
    }
}

proof fn lemma_join_push(parts: Seq<Seq<char>>, sep: Seq<char>, i: int)
    requires
        0 <= i < parts.len(),
    ensures
        join(parts.take(i + 1), sep) == if i == 0 {
            parts[0]
        } else {
            join(parts.take(i), sep) + sep + parts[i]
        },
{
    assert(parts.take(i + 1).drop_last() =~= parts.take(i));
}

impl Table {
    pub fn new(name: &str) -> (r: Table)
        ensures
            r@ == (TableView { name: name@, columns: Seq::empty(), foreign_keys: Seq::empty() }),
    {
        let r = Table { name: String::from_str(name), columns: Vec::new(), foreign_keys: Vec::new() };
        proof {
            assert(r@.columns =~= Seq::<ColumnView>::empty());
            assert(r@.foreign_keys =~= Seq::<ForeignKeyView>::empty());
        }
        r
    }

    /// Adds a column after the existing ones.
    pub fn add_column(&mut self, c: Column)
        ensures
            final(self)@ == (TableView { columns: old(self)@.columns.push(c@), ..old(self)@ }),
    {
        self.columns.push(c);
        proof {
            assert(final(self)@.columns =~= old(self)@.columns.push(c@));
        }
    }

    /// Adds a foreign key after the existing ones.
    pub fn add_foreign_key(&mut self, f: ForeignKey)
        ensures
            final(self)@ == (TableView {
                foreign_keys: old(self)@.foreign_keys.push(f@),
                ..old(self)@
            }),
    {
        self.foreign_keys.push(f);
        proof {
            assert(final(self)@.foreign_keys =~= old(self)@.foreign_keys.push(f@));
        }
    }

    pub fn duplicate(&self) -> (r: Table)
        ensures
            r@ == self@,
    {
        let mut columns: Vec<Column> = Vec::new();
        let mut i: usize = 0;
        while i < self.columns.len()
            invariant
                i <= self.columns.len(),
                columns.len() == i,
                forall|k: int| 0 <= k < i ==> columns@[k]@ == self.columns@[k]@,
            decreases self.columns.len() - i,
        {
            columns.push(self.columns[i].duplicate());
            i = i + 1;
        }
        let mut foreign_keys: Vec<ForeignKey> = Vec::new();
        let mut j: usize = 0;
        while j < self.foreign_keys.len()
            invariant
                j <= self.foreign_keys.len(),
                foreign_keys.len() == j,
                forall|k: int| 0 <= k < j ==> foreign_keys@[k]@ == self.foreign_keys@[k]@,
            decreases self.foreign_keys.len() - j,
        {
            foreign_keys.push(self.foreign_keys[j].duplicate());
            j = j + 1;
        }
        let r = Table { name: self.name.clone(), columns, foreign_keys };
        proof {
            assert(r@.columns =~= self@.columns);
            assert(r@.foreign_keys =~= self@.foreign_keys);
        }
        r
    }

    /// The statement that creates this table unless one of its name exists.
    pub fn create_sql(&self) -> (r: String)
        ensures
            r@ == create_sql(self@),
    {
        let ghost parts = clauses(self@);
        let ghost ncols = self.columns.len() as int;
        let mut body = String::new();
        let mut i: usize = 0;
        while i < self.columns.len()
            invariant
                parts == clauses(self@),
                ncols == self.columns.len(),
                parts.len() == ncols + self.foreign_keys.len(),
                i <= ncols,
                body@ == join(parts.take(i as int), ", "@),
            decreases self.columns.len() - i,
        {
            let part = self.columns[i].to_sql();
            proof {
                assert(part@ == parts[i as int]);
                lemma_join_push(parts, ", "@, i as int);
            }
            if i > 0 {
                body.append(", ");
            }
            body.append(part.as_str());
            i = i + 1;
        }
        let mut j: usize = 0;
        while j < self.foreign_keys.len()
            invariant
                parts == clauses(self@),
                ncols == self.columns.len(),
                parts.len() == ncols + self.foreign_keys.len(),
                i == ncols,
                j <= self.foreign_keys.len(),
                body@ == join(parts.take(ncols + j), ", "@),
            decreases self.foreign_keys.len() - j,
        {
            let part = self.foreign_keys[j].to_sql();
            proof {
                assert(part@ == parts[ncols + j]);
                lemma_join_push(parts, ", "@, ncols + j);
            }
            if i > 0 || j > 0 {
                body.append(", ");
            }
            body.append(part.as_str());
            j = j + 1;
        }
        proof {
            assert(parts.take(parts.len() as int) =~= parts);
        }
        let mut r = String::from_str("CREATE TABLE IF NOT EXISTS ");
        r.append(self.name.as_str());
        r.append(" (");
        r.append(body.as_str());
        r.append(")");
        proof {
            assert(r@ =~= create_sql(self@));
        }
        r
    }
}

} // verus!
