use vstd::prelude::*;
use vstd::string::StringExecFns;

use crate::laws::lemma_fresh_install;
use crate::migration::{
    base_images_view, check_versions, first_fault, schema_changes, schema_history,
    templates_view, version_fault, versions_of, MigrationError, MigrationKind, SchemaChange,
    SchemaChangeView,
};
use crate::schema::{Table, TableView};

verus! {

/// A row of `templates`, by its key and the key of the base image it belongs to.
pub struct TemplateRow {
    pub id: String,
    pub base_id: String,
}

/// Why a row was not written.
#[derive(Clone, Copy, PartialEq, Eq, Structural, Debug)]
pub enum RowError {
    /// The table has not been created.
    NoSuchTable,
    /// A row with this key exists.
    DuplicateKey,
    /// The template's base image does not exist.
    MissingBaseImage,
}

/// The schema and the keys held in one database file: the versions applied so far,
/// the tables created, the keys of `base_images` and the rows of `templates`.
pub struct Database {
    pub applied: Vec<i64>,
    pub tables: Vec<Table>,
    pub base_images: Vec<String>,
    pub templates: Vec<TemplateRow>,
}

/// What a database holds, as plain values; a template row is its key and its base
/// image's key.
pub ghost struct DatabaseView {
    pub applied: Seq<i64>,
    pub tables: Seq<TableView>,
    pub base_images: Seq<Seq<char>>,
    pub templates: Seq<(Seq<char>, Seq<char>)>,
}

impl View for Database {
    type V = DatabaseView;

    open spec fn view(&self) -> DatabaseView {
        DatabaseView {
            applied: self.applied@,
            tables: self.tables@.map_values(|t: Table| t@),
            base_images: self.base_images@.map_values(|s: String| s@),
            templates: self.templates@.map_values(|t: TemplateRow| (t.id@, t.base_id@)),
        }
    }
}

/// A database with no tables and nothing applied.
pub open spec fn empty_database() -> DatabaseView {
    DatabaseView {
        applied: Seq::empty(),
        tables: Seq::empty(),
        base_images: Seq::empty(),
        templates: Seq::empty(),
    }
}

/// The database that a fresh install holds: both tables, both versions, no rows.
pub open spec fn installed_database() -> DatabaseView {
    DatabaseView {
        applied: seq![1i64, 2i64],
        tables: seq![base_images_view(), templates_view()],
        base_images: Seq::empty(),
        templates: Seq::empty(),
    }
}

/// The highest version applied, 0 before any.
pub open spec fn highest(applied: Seq<i64>) -> int {
    if applied.len() == 0 {
        0
    } else {
        applied.last() as int
    }
}

/// Whether a table of that name exists.
pub open spec fn has_table(tables: Seq<TableView>, name: Seq<char>) -> bool {
    exists|i: int| 0 <= i < tables.len() && (#[trigger] tables[i]).name == name
}

/// Each table that `t`'s foreign keys name exists, or is `t` itself.
pub open spec fn references_resolve(tables: Seq<TableView>, t: TableView) -> bool {
    forall|k: int|
        0 <= k < t.foreign_keys.len() ==> (#[trigger] t.foreign_keys[k]).table == t.name
            || has_table(tables, t.foreign_keys[k].table)
}

/// Whether the change is due: it builds up and is newer than all applied.
pub open spec fn is_due(db: DatabaseView, c: SchemaChangeView) -> bool {
    c.kind == MigrationKind::Up && c.version > highest(db.applied)
}

/// One change applied: `None` when its statement fails.
pub open spec fn step(db: DatabaseView, c: SchemaChangeView) -> Option<DatabaseView> {
    if !is_due(db, c) {
        Some(db)
    } else if has_table(db.tables, c.table.name) {
        Some(DatabaseView { applied: db.applied.push(c.version), ..db })
    } else if references_resolve(db.tables, c.table) {
        Some(
            DatabaseView {
                applied: db.applied.push(c.version),
                tables: db.tables.push(c.table),
                ..db
            },
        )
    } else {
        None
    }
}

/// The changes applied in order: the database after them, the versions whose
/// statements ran, and the version whose statement failed, where one did.
pub open spec fn run(db: DatabaseView, cs: Seq<SchemaChangeView>) -> (
    DatabaseView,
    Seq<i64>,
    Option<i64>,
)
    decreases cs.len(),
{
    if cs.len() == 0 {
        (db, Seq::empty(), None)
    } else {
        let (d, ran, failed) = run(db, cs.drop_last());
        if failed is Some {
            (d, ran, failed)
        } else {
            match step(d, cs.last()) {
                None => (d, ran, Some(cs.last().version)),
                Some(d2) => (
                    d2,
                    if is_due(d, cs.last()) {
                        ran.push(cs.last().version)
                    } else {
                        ran
                    },
                    None,
                ),
            }
        }
    }
}

/// Versions applied in increasing order, table names and keys unique, and each
/// template's base image present.
pub open spec fn view_wf(db: DatabaseView) -> bool {
    &&& forall|i: int, j: int|
        0 <= i < j < db.applied.len() ==> db.applied[i] < db.applied[j]
    &&& forall|i: int| 0 <= i < db.applied.len() ==> #[trigger] db.applied[i] > 0
    &&& forall|i: int, j: int|
        0 <= i < j < db.tables.len() ==> db.tables[i].name != db.tables[j].name
    &&& db.base_images.no_duplicates()
    &&& keys_distinct(db.templates)
    &&& forall|i: int|
        0 <= i < db.templates.len() ==> db.base_images.contains((#[trigger] db.templates[i]).1)
}

/// Whether a base image with key `id` exists.
pub open spec fn has_base_image(db: DatabaseView, id: Seq<char>) -> bool {
    db.base_images.contains(id)
}

/// Whether a template with key `id` exists.
pub open spec fn has_template(db: DatabaseView, id: Seq<char>) -> bool {
    exists|i: int| 0 <= i < db.templates.len() && (#[trigger] db.templates[i]).0 == id
}

/// The keys without `id`, in their order.
pub open spec fn without_key(keys: Seq<Seq<char>>, id: Seq<char>) -> Seq<Seq<char>>
    decreases keys.len(),
{
    if keys.len() == 0 {
        keys
    } else if keys.last() == id {
        without_key(keys.drop_last(), id)
    } else {
        without_key(keys.drop_last(), id).push(keys.last())
    }
}

/// The template rows that do not belong to base image `id`, in their order.
pub open spec fn without_dependents(
    rows: Seq<(Seq<char>, Seq<char>)>,
    id: Seq<char>,
) -> Seq<(Seq<char>, Seq<char>)>
    decreases rows.len(),
{
    if rows.len() == 0 {
        rows
    } else if rows.last().1 == id {
        without_dependents(rows.drop_last(), id)
    } else {
        without_dependents(rows.drop_last(), id).push(rows.last())
    }
}

proof fn lemma_without_key(keys: Seq<Seq<char>>, id: Seq<char>)
    requires
        keys.no_duplicates(),
    ensures
        without_key(keys, id).no_duplicates(),
        forall|k: Seq<char>| #[trigger] without_key(keys, id).contains(k) <==> (keys.contains(k) && k != id),
    decreases keys.len(),
{
    if keys.len() > 0 {
        let rest = keys.drop_last();
        assert(rest.no_duplicates());
        lemma_without_key(rest, id);
        assert forall|k: Seq<char>| keys.contains(k) <==> (rest.contains(k) || k == keys.last()) by {
            if keys.contains(k) {
                let m = choose|m: int| 0 <= m < keys.len() && keys[m] == k;
                if m < keys.len() - 1 {
                    assert(rest[m] == k);
                }
            }
            if rest.contains(k) {
                let m = choose|m: int| 0 <= m < rest.len() && rest[m] == k;
                assert(keys[m] == k);
            }
            if k == keys.last() {
                assert(keys[keys.len() - 1] == k);
            }
        }
        if keys.last() != id {
            let w = without_key(rest, id);
            assert(!rest.contains(keys.last())) by {
                if rest.contains(keys.last()) {
                    let m = choose|m: int| 0 <= m < rest.len() && rest[m] == keys.last();
                    assert(keys[m] == keys[keys.len() - 1]);
                }
            }
            assert(!w.contains(keys.last()));
            let v = w.push(keys.last());
            assert forall|i: int, j: int| 0 <= i < v.len() && 0 <= j < v.len() && i != j implies v[i]
                != v[j] by {
                if j == w.len() {
                    assert(w[i] == v[i]);
                } else if i == w.len() {
                    assert(w[j] == v[j]);
                }
            }
            assert forall|k: Seq<char>| #[trigger] w.push(keys.last()).contains(k) <==> (w.contains(k)
                || k == keys.last()) by {
                if w.push(keys.last()).contains(k) {
                    let m = choose|m: int| 0 <= m < w.len() + 1 && w.push(keys.last())[m] == k;
                    if m < w.len() {
                        assert(w[m] == k);
                    }
                }
                if w.contains(k) {
                    let m = choose|m: int| 0 <= m < w.len() && w[m] == k;
                    assert(w.push(keys.last())[m] == k);
                }
                if k == keys.last() {
                    assert(w.push(keys.last())[w.len() as int] == k);
                }
            }
        }
    }
}

/// No two rows share a key.
pub open spec fn keys_distinct(rows: Seq<(Seq<char>, Seq<char>)>) -> bool {
    forall|i: int, j: int| 0 <= i < j < rows.len() ==> rows[i].0 != rows[j].0
}

proof fn lemma_without_dependents(rows: Seq<(Seq<char>, Seq<char>)>, id: Seq<char>)
    requires
        keys_distinct(rows),
    ensures
        keys_distinct(without_dependents(rows, id)),
        forall|t: (Seq<char>, Seq<char>)| #[trigger] without_dependents(rows, id).contains(t) <==> (
        rows.contains(t) && t.1 != id),
    decreases rows.len(),
{
    if rows.len() > 0 {
        let rest = rows.drop_last();
        let last = rows.last();
        lemma_without_dependents(rest, id);
        assert forall|t: (Seq<char>, Seq<char>)| rows.contains(t) <==> (rest.contains(t) || t
            == last) by {
            if rows.contains(t) {
                let m = choose|m: int| 0 <= m < rows.len() && rows[m] == t;
                if m < rows.len() - 1 {
                    assert(rest[m] == t);
                }
            }
            if rest.contains(t) {
                let m = choose|m: int| 0 <= m < rest.len() && rest[m] == t;
                assert(rows[m] == t);
            }
            if t == last {
                assert(rows[rows.len() - 1] == t);
            }
        }
        if last.1 != id {
            let w = without_dependents(rest, id);
            let v = w.push(last);
            assert forall|i: int, j: int| 0 <= i < j < v.len() implies v[i].0 != v[j].0 by {
                if j == w.len() {
                    assert(w.contains(w[i]));
                    let m = choose|m: int| 0 <= m < rest.len() && rest[m] == w[i];
                    assert(rows[m] == w[i]);
                    assert(rows[rows.len() - 1] == last);
                }
            }
            assert forall|t: (Seq<char>, Seq<char>)| #[trigger] v.contains(t) <==> (w.contains(t)
                || t == last) by {
                if v.contains(t) {
                    let m = choose|m: int| 0 <= m < v.len() && v[m] == t;
                    if m < w.len() {
                        assert(w[m] == t);
                    }
                }
                if w.contains(t) {
                    let m = choose|m: int| 0 <= m < w.len() && w[m] == t;
                    assert(v[m] == t);
                }
                if t == last {
                    assert(v[w.len() as int] == t);
                }
            }
        }
    }
}

proof fn lemma_step_wf(db: DatabaseView, c: SchemaChangeView)
    requires
        view_wf(db),
        c.version > 0,
        step(db, c) is Some,
    ensures
        view_wf(step(db, c)->Some_0),
{
    if is_due(db, c) {
        let d2 = step(db, c)->Some_0;
        assert forall|i: int, j: int| 0 <= i < j < d2.applied.len() implies d2.applied[i]
            < d2.applied[j] by {
            if j == d2.applied.len() - 1 && i < j {
                assert(db.applied[i] <= highest(db.applied));
                if db.applied.len() > 0 {
                    assert(i == db.applied.len() - 1 || db.applied[i] < db.applied.last());
                }
            }
        }
        if !has_table(db.tables, c.table.name) {
            assert forall|i: int, j: int| 0 <= i < j < d2.tables.len() implies d2.tables[i].name
                != d2.tables[j].name by {
                if j == d2.tables.len() - 1 {
                    assert(db.tables[i].name != c.table.name);
                }
            }
        }
    }
}

proof fn lemma_run_stops(db: DatabaseView, cs: Seq<SchemaChangeView>, n: int)
    requires
        0 <= n <= cs.len(),
        run(db, cs.take(n)).2 is Some,
    ensures
        run(db, cs) == run(db, cs.take(n)),
    decreases cs.len() - n,
{
    if n < cs.len() {
        assert(cs.take(n + 1).drop_last() =~= cs.take(n));
        lemma_run_stops(db, cs, n + 1);
    } else {
        assert(cs.take(n) =~= cs);
    }
}

impl Database {
    /// A database with no tables and no versions applied.
    pub fn new() -> (r: Database)
        ensures
            r@ == empty_database(),
            r.wf(),
    {
        let r = Database {
            applied: Vec::new(),
            tables: Vec::new(),
            base_images: Vec::new(),
            templates: Vec::new(),
        };
        proof {
            assert(r@.tables =~= Seq::<TableView>::empty());
            assert(r@.base_images =~= Seq::<Seq<char>>::empty());
            assert(r@.templates =~= Seq::<(Seq<char>, Seq<char>)>::empty());
        }
        r
    }

    /// A new database with the application's schema history applied: both tables,
    /// no rows.
    pub fn install() -> (r: Database)
        ensures
            r.wf(),
            r@ == installed_database(),
    {
        let mut db = Database::new();
        let changes = schema_changes();
        let _ran = db.migrate(&changes);
        proof {
            let vs = versions_of(schema_history());
            assert(vs =~= seq![1i64, 2i64]);
            assert(version_fault(vs, 0) is None);
            assert(version_fault(vs, 1) is None);
            reveal_with_fuel(first_fault, 3);
            assert(first_fault(vs, 0) is None);
            lemma_fresh_install();
        }
        db
    }

    pub open spec fn wf(&self) -> bool {
        view_wf(self@)
    }

    /// Where the table named `name` stands, if there is one.
    pub fn find_table(&self, name: &String) -> (r: Option<usize>)
        ensures
            match r {
                Some(i) => i < self.tables.len() && self@.tables[i as int].name == name@,
                None => !has_table(self@.tables, name@),
            },
    {
        let mut i: usize = 0;
        while i < self.tables.len()
            invariant
                i <= self.tables.len(),
                forall|k: int| 0 <= k < i ==> self@.tables[k].name != name@,
            decreases self.tables.len() - i,
        {
            if self.tables[i].name == *name {
                return Some(i);
            }
            i = i + 1;
        }
        None
    }

    /// Whether each table that `t`'s foreign keys name exists, or is `t` itself.
    fn references_resolve(&self, t: &Table) -> (r: bool)
        ensures
            r == references_resolve(self@.tables, t@),
    {
        let mut k: usize = 0;
        while k < t.foreign_keys.len()
            invariant
                k <= t.foreign_keys.len(),
                forall|j: int|
                    0 <= j < k ==> (#[trigger] t@.foreign_keys[j]).table == t@.name || has_table(
                        self@.tables,
                        t@.foreign_keys[j].table,
                    ),
            decreases t.foreign_keys.len() - k,
        {
            let target = &t.foreign_keys[k].table;
            if *target != t.name {
                if self.find_table(target).is_none() {
                    assert(t@.foreign_keys[k as int].table == target@);
                    return false;
                }
            }
            k = k + 1;
        }
        true
    }

    /// Applies each due change in order: one that builds up and is newer than every
    /// version applied. A change whose table exists already only records its version.
    /// Versions that are not positive and strictly increasing are refused before any
    /// change; a change whose foreign key names a missing table stops the run, the
    /// changes before it kept. On success the versions whose statements ran come back.
    pub fn migrate(&mut self, changes: &Vec<SchemaChange>) -> (r: Result<
        Vec<i64>,
        MigrationError,
    >)
        requires
            old(self).wf(),
        ensures
            final(self).wf(),
            ({
                let cs = changes@.map_values(|c: SchemaChange| c@);
                let (d, ran, failed) = run(old(self)@, cs);
                if first_fault(versions_of(cs), 0) is Some {
                    &&& r == Err::<Vec<i64>, MigrationError>(
                        first_fault(versions_of(cs), 0)->Some_0,
                    )
                    &&& final(self)@ == old(self)@
                } else {
                    &&& final(self)@ == d
                    &&& match failed {
                        None => r is Ok && r->Ok_0@ == ran,
                        Some(v) => r == Err::<Vec<i64>, MigrationError>(
                            MigrationError::MissingReference(v),
                        ),
                    }
                }
            }),
    {
        let ghost cs = changes@.map_values(|c: SchemaChange| c@);
        let versions = versions(changes);
        match check_versions(&versions) {
            Err(e) => {
                return Err(e);
            },
            Ok(()) => {},
        }
        let ghost start = self@;
        proof {
            assert forall|k: int| 0 <= k < cs.len() implies #[trigger] cs[k].version > 0 by {
                assert(versions@[k] == cs[k].version);
            }
        }
        let mut ran: Vec<i64> = Vec::new();
        let mut j: usize = 0;
        while j < changes.len()
            invariant
                j <= changes.len(),
                cs == changes@.map_values(|c: SchemaChange| c@),
                forall|k: int| 0 <= k < cs.len() ==> #[trigger] cs[k].version > 0,
                first_fault(versions_of(cs), 0) is None,
                start == old(self)@,
                self.wf(),
                run(start, cs.take(j as int)) == (self@, ran@, None::<i64>),
            decreases changes.len() - j,
        {
            let c = &changes[j];
            proof {
                assert(cs.take(j + 1).drop_last() =~= cs.take(j as int));
                assert(cs.take(j + 1).last() == c@);
                assert(c@.version == cs[j as int].version);
            }
            match self.apply(c) {
                Err(()) => {
                    proof {
                        assert(run(start, cs.take(j + 1)).2 == Some(c.version));
                        lemma_run_stops(start, cs, j + 1);
                    }
                    return Err(MigrationError::MissingReference(c.version));
                },
                Ok(due) => {
                    if due {
                        ran.push(c.version);
                    }
                },
            }
            j = j + 1;
        }
        proof {
            assert(cs.take(changes.len() as int) =~= cs);
        }
        Ok(ran)
    }

    fn base_image_exists(&self, id: &String) -> (r: bool)
        ensures
            r == has_base_image(self@, id@),
    {
        let mut i: usize = 0;
        while i < self.base_images.len()
            invariant
                i <= self.base_images.len(),
                forall|k: int| 0 <= k < i ==> self@.base_images[k] != id@,
            decreases self.base_images.len() - i,
        {
            if self.base_images[i] == *id {
                assert(self@.base_images[i as int] == id@);
                return true;
            }
            i = i + 1;
        }
        false
    }

    fn template_exists(&self, id: &String) -> (r: bool)
        ensures
            r == has_template(self@, id@),
    {
        let mut i: usize = 0;
        while i < self.templates.len()
            invariant
                i <= self.templates.len(),
                forall|k: int| 0 <= k < i ==> self@.templates[k].0 != id@,
            decreases self.templates.len() - i,
        {
            if self.templates[i].id == *id {
                assert(self@.templates[i as int].0 == id@);
                return true;
            }
            i = i + 1;
        }
        false
    }

    /// Adds a base image with key `id`: refused before `base_images` exists and for a
    /// key already taken.
    pub fn insert_base_image(&mut self, id: String) -> (r: Result<(), RowError>)
        requires
            old(self).wf(),
        ensures
            final(self).wf(),
            !has_table(old(self)@.tables, "base_images"@) ==> r == Err::<(), RowError>(
                RowError::NoSuchTable,
            ) && final(self)@ == old(self)@,
            has_table(old(self)@.tables, "base_images"@) && has_base_image(old(self)@, id@) ==> r
                == Err::<(), RowError>(RowError::DuplicateKey) && final(self)@ == old(self)@,
            has_table(old(self)@.tables, "base_images"@) && !has_base_image(old(self)@, id@) ==> r
                is Ok && final(self)@ == (DatabaseView {
                base_images: old(self)@.base_images.push(id@),
                ..old(self)@
            }),
    {
        let name = String::from_str("base_images");
        if self.find_table(&name).is_none() {
            return Err(RowError::NoSuchTable);
        }
        if self.base_image_exists(&id) {
            return Err(RowError::DuplicateKey);
        }
        let ghost before = self@;
        self.base_images.push(id);
        proof {
            assert(self@.base_images =~= before.base_images.push(id@));
            assert(self@.templates =~= before.templates);
            let b = self@.base_images;
            assert forall|i: int, j: int| 0 <= i < b.len() && 0 <= j < b.len() && i != j implies b[i]
                != b[j] by {
                if j == b.len() - 1 {
                    assert(before.base_images[i] == b[i]);
                } else if i == b.len() - 1 {
                    assert(before.base_images[j] == b[j]);
                }
            }
            assert forall|i: int| 0 <= i < self@.templates.len() implies self@.base_images.contains(
                (#[trigger] self@.templates[i]).1,
            ) by {
                let m = choose|m: int|
                    0 <= m < before.base_images.len() && before.base_images[m]
                        == before.templates[i].1;
                assert(self@.base_images[m] == before.templates[i].1);
            }
        }
        Ok(())
    }

    /// Adds a template with key `id` that belongs to base image `base_id`: refused
    /// before `templates` exists, for a key already taken, and for a base image that
    /// does not exist.
    pub fn insert_template(&mut self, id: String, base_id: String) -> (r: Result<(), RowError>)
        requires
            old(self).wf(),
        ensures
            final(self).wf(),
            !has_table(old(self)@.tables, "templates"@) ==> r == Err::<(), RowError>(
                RowError::NoSuchTable,
            ) && final(self)@ == old(self)@,
            has_table(old(self)@.tables, "templates"@) && has_template(old(self)@, id@) ==> r
                == Err::<(), RowError>(RowError::DuplicateKey) && final(self)@ == old(self)@,
            has_table(old(self)@.tables, "templates"@) && !has_template(old(self)@, id@)
                && !has_base_image(old(self)@, base_id@) ==> r == Err::<(), RowError>(
                RowError::MissingBaseImage,
            ) && final(self)@ == old(self)@,
            has_table(old(self)@.tables, "templates"@) && !has_template(old(self)@, id@)
                && has_base_image(old(self)@, base_id@) ==> r is Ok && final(self)@ == (
            DatabaseView { templates: old(self)@.templates.push((id@, base_id@)), ..old(self)@ }),
    {
        let name = String::from_str("templates");
        if self.find_table(&name).is_none() {
            return Err(RowError::NoSuchTable);
        }
        if self.template_exists(&id) {
            return Err(RowError::DuplicateKey);
        }
        if !self.base_image_exists(&base_id) {
            return Err(RowError::MissingBaseImage);
        }
        let ghost before = self@;
        self.templates.push(TemplateRow { id, base_id });
        proof {
            assert(self@.templates =~= before.templates.push((id@, base_id@)));
            assert(self@.base_images =~= before.base_images);
            let t = self@.templates;
            assert forall|i: int, j: int| 0 <= i < j < t.len() implies t[i].0 != t[j].0 by {
                if j == t.len() - 1 {
                    assert(before.templates[i] == t[i]);
                }
            }
            assert forall|i: int| 0 <= i < t.len() implies self@.base_images.contains(
                (#[trigger] t[i]).1,
            ) by {
                if i < t.len() - 1 {
                    assert(before.templates[i] == t[i]);
                }
            }
        }
        Ok(())
    }

    /// Deletes base image `id` and, with it, every template that belongs to it; tells
    /// whether the base image was there.
    pub fn delete_base_image(&mut self, id: &String) -> (r: bool)
        requires
            old(self).wf(),
        ensures
            final(self).wf(),
            r == has_base_image(old(self)@, id@),
            final(self)@ == (DatabaseView {
                base_images: without_key(old(self)@.base_images, id@),
                templates: without_dependents(old(self)@.templates, id@),
                ..old(self)@
            }),
            forall|i: int|
                0 <= i < final(self)@.templates.len() ==> (#[trigger] final(self)@.templates[i]).1
                    != id@,
    {
        let r = self.base_image_exists(id);
        let ghost before = self@;
        let mut kept: Vec<String> = Vec::new();
        let mut i: usize = 0;
        while i < self.base_images.len()
            invariant
                self@ == before,
                i <= self.base_images.len(),
                kept@.map_values(|s: String| s@) == without_key(before.base_images.take(i as int), id@),
            decreases self.base_images.len() - i,
        {
            proof {
                assert(before.base_images.take(i + 1).drop_last() =~= before.base_images.take(i as int));
                assert(before.base_images.take(i + 1).last() == self.base_images@[i as int]@);
            }
            if self.base_images[i] != *id {
                kept.push(self.base_images[i].clone());
            }
            i = i + 1;
            proof {
                assert(kept@.map_values(|s: String| s@) =~= without_key(before.base_images.take(i as int), id@));
            }
        }
        let mut rows: Vec<TemplateRow> = Vec::new();
        let mut j: usize = 0;
        while j < self.templates.len()
            invariant
                self@ == before,
                j <= self.templates.len(),
                rows@.map_values(|t: TemplateRow| (t.id@, t.base_id@)) == without_dependents(
                    before.templates.take(j as int),
                    id@,
                ),
            decreases self.templates.len() - j,
        {
            proof {
                assert(before.templates.take(j + 1).drop_last() =~= before.templates.take(j as int));
                assert(before.templates.take(j + 1).last() == before.templates[j as int]);
            }
            if self.templates[j].base_id != *id {
                rows.push(
                    TemplateRow {
                        id: self.templates[j].id.clone(),
                        base_id: self.templates[j].base_id.clone(),
                    },
                );
            }
            j = j + 1;
            proof {
                assert(rows@.map_values(|t: TemplateRow| (t.id@, t.base_id@)) =~= without_dependents(
                    before.templates.take(j as int),
                    id@,
                ));
            }
        }
        proof {
            assert(before.base_images.take(before.base_images.len() as int) =~= before.base_images);
            assert(before.templates.take(before.templates.len() as int) =~= before.templates);
        }
        self.base_images = kept;
        self.templates = rows;
        proof {
            let t = self@.templates;
            lemma_without_key(before.base_images, id@);
            lemma_without_dependents(before.templates, id@);
            assert forall|i: int| 0 <= i < t.len() implies self@.base_images.contains(
                (#[trigger] t[i]).1,
            ) && t[i].1 != id@ by {
                assert(t.contains(t[i]));
                assert(before.templates.contains(t[i]));
                let m = choose|m: int| 0 <= m < before.templates.len() && before.templates[m] == t[i];
                assert(before.base_images.contains(before.templates[m].1));
            }
        }
        r
    }

    /// One change applied, as `step` says; `Ok` tells whether it was due.
    fn apply(&mut self, c: &SchemaChange) -> (r: Result<bool, ()>)
        requires
            old(self).wf(),
            c.version > 0,
        ensures
            final(self).wf(),
            match step(old(self)@, c@) {
                None => r is Err && final(self)@ == old(self)@,
                Some(d) => r == Ok::<bool, ()>(is_due(old(self)@, c@)) && final(self)@ == d,
            },
    {
        let ghost before = self@;
        let due = c.kind == MigrationKind::Up && (self.applied.len() == 0 || c.version
            > self.applied[self.applied.len() - 1]);
        if !due {
            return Ok(false);
        }
        match self.find_table(&c.table.name) {
            Some(_) => {
                self.applied.push(c.version);
            },
            None => {
                if !self.references_resolve(&c.table) {
                    return Err(());
                }
                self.applied.push(c.version);
                self.tables.push(c.table.duplicate());
                proof {
                    assert(self@.tables =~= before.tables.push(c@.table));
                }
            },
        }
        proof {
            assert(self@ == step(before, c@)->Some_0);
            lemma_step_wf(before, c@);
        }
        Ok(true)
    }
}

/// The versions of the changes, in order.
fn versions(changes: &Vec<SchemaChange>) -> (r: Vec<i64>)
    ensures
        r@ == versions_of(changes@.map_values(|c: SchemaChange| c@)),
{
    let ghost cs = changes@.map_values(|c: SchemaChange| c@);
    let mut r: Vec<i64> = Vec::new();
    let mut i: usize = 0;
    while i < changes.len()
        invariant
            i <= changes.len(),
            r@ == versions_of(cs).take(i as int),
            cs == changes@.map_values(|c: SchemaChange| c@),
        decreases changes.len() - i,
    {
        r.push(changes[i].version);
        i = i + 1;
        proof {
            assert(r@ =~= versions_of(cs).take(i as int));
        }
    }
    proof {
        assert(r@ =~= versions_of(cs));
    }
    r
}

} // verus!
