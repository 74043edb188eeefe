use template_db::database::{Database, RowError};
use template_db::greeting::greet;
use template_db::migration::{
    base_images_table, check_versions, migrations, schema_changes, templates_table,
    MigrationError, MigrationKind, SchemaChange,
};
use template_db::schema::{Column, ColumnType, ForeignKey, Table};

const BASE_IMAGES_SQL: &str = "CREATE TABLE IF NOT EXISTS base_images (id TEXT PRIMARY KEY, name TEXT NOT NULL, aspect_ratio REAL NOT NULL, height INTEGER NOT NULL, width INTEGER NOT NULL, thumbnail_path TEXT NOT NULL, file_prefix TEXT)";
const TEMPLATES_SQL: &str = "CREATE TABLE IF NOT EXISTS templates (id TEXT PRIMARY KEY, name TEXT NOT NULL, base_id TEXT NOT NULL, template_path TEXT NOT NULL, file_suffix TEXT, FOREIGN KEY (base_id) REFERENCES base_images(id) ON DELETE CASCADE)";

fn change(version: i64, table: Table) -> SchemaChange {
    SchemaChange {
        version,
        description: format!("change {}", version),
        table,
        kind: MigrationKind::Up,
    }
}

fn s(x: &str) -> String {
    x.to_string()
}

#[test]
fn greet_world() {
    assert_eq!(greet("World"), "Hello, World! You've been greeted from Rust!");
}

#[test]
fn greet_empty_name() {
    assert_eq!(greet(""), "Hello, ! You've been greeted from Rust!");
}

#[test]
fn base_images_statement() {
    assert_eq!(base_images_table().create_sql(), BASE_IMAGES_SQL);
}

#[test]
fn templates_statement() {
    assert_eq!(templates_table().create_sql(), TEMPLATES_SQL);
}

#[test]
fn table_without_columns() {
    assert_eq!(Table::new("t").create_sql(), "CREATE TABLE IF NOT EXISTS t ()");
}

#[test]
fn column_and_key_clauses() {
    assert_eq!(Column::new("n", ColumnType::Integer, true, false).to_sql(), "n INTEGER NOT NULL");
    assert_eq!(Column::new("r", ColumnType::Real, false, false).to_sql(), "r REAL");
    assert_eq!(
        ForeignKey::new("a", "b", "c", false).to_sql(),
        "FOREIGN KEY (a) REFERENCES b(c)"
    );
}

#[test]
fn migration_list() {
    let ms = migrations();
    assert_eq!(ms.len(), 2);
    assert_eq!(ms[0].version, 1);
    assert_eq!(ms[0].description, "create base_images table");
    assert_eq!(ms[0].sql, BASE_IMAGES_SQL);
    assert_eq!(ms[0].kind, MigrationKind::Up);
    assert_eq!(ms[1].version, 2);
    assert_eq!(ms[1].description, "create templates table");
    assert_eq!(ms[1].sql, TEMPLATES_SQL);
    assert_eq!(ms[1].kind, MigrationKind::Up);
}

#[test]
fn versions_accepted() {
    assert_eq!(check_versions(&vec![]), Ok(()));
    assert_eq!(check_versions(&vec![1, 2]), Ok(()));
    assert_eq!(check_versions(&vec![1, 5, 9]), Ok(()));
}

#[test]
fn versions_refused() {
    assert_eq!(check_versions(&vec![0, 1]), Err(MigrationError::NonPositiveVersion(0)));
    assert_eq!(check_versions(&vec![1, 1]), Err(MigrationError::DuplicateVersion(1)));
    assert_eq!(check_versions(&vec![2, 1]), Err(MigrationError::VersionOutOfOrder(1)));
    assert_eq!(check_versions(&vec![1, 3, -4]), Err(MigrationError::NonPositiveVersion(-4)));
}

#[test]
fn fresh_install_has_both_tables_and_no_rows() {
    let db = Database::install();
    assert_eq!(db.applied, vec![1, 2]);
    assert_eq!(db.tables.len(), 2);
    assert_eq!(db.tables[0].name, "base_images");
    assert_eq!(db.tables[0].create_sql(), BASE_IMAGES_SQL);
    assert_eq!(db.tables[1].name, "templates");
    assert_eq!(db.tables[1].create_sql(), TEMPLATES_SQL);
    assert!(db.base_images.is_empty());
    assert!(db.templates.is_empty());
}

#[test]
fn migrate_runs_in_order() {
    let mut db = Database::new();
    let ran = db.migrate(&schema_changes());
    assert_eq!(ran, Ok(vec![1, 2]));
    assert_eq!(db.tables[0].name, "base_images");
    assert_eq!(db.tables[1].name, "templates");
}

#[test]
fn migrate_twice_is_noop() {
    let mut db = Database::new();
    assert_eq!(db.migrate(&schema_changes()), Ok(vec![1, 2]));
    assert_eq!(db.migrate(&schema_changes()), Ok(vec![]));
    assert_eq!(db.applied, vec![1, 2]);
    assert_eq!(db.tables.len(), 2);
}

#[test]
fn templates_first_fails() {
    let mut db = Database::new();
    let changes = vec![change(1, templates_table()), change(2, base_images_table())];
    assert_eq!(db.migrate(&changes), Err(MigrationError::MissingReference(1)));
    assert!(db.applied.is_empty());
    assert!(db.tables.is_empty());
}

#[test]
fn failure_keeps_earlier_changes() {
    let mut db = Database::new();
    let mut orphan = Table::new("orphans");
    orphan.add_foreign_key(ForeignKey::new("x", "nowhere", "id", true));
    let changes = vec![change(1, base_images_table()), change(3, orphan)];
    assert_eq!(db.migrate(&changes), Err(MigrationError::MissingReference(3)));
    assert_eq!(db.applied, vec![1]);
    assert_eq!(db.tables.len(), 1);
}

#[test]
fn bad_versions_change_nothing() {
    let mut db = Database::new();
    let changes = vec![change(2, base_images_table()), change(2, templates_table())];
    assert_eq!(db.migrate(&changes), Err(MigrationError::DuplicateVersion(2)));
    assert!(db.tables.is_empty());
}

#[test]
fn down_changes_are_skipped() {
    let mut db = Database::new();
    let mut down = change(1, base_images_table());
    down.kind = MigrationKind::Down;
    assert_eq!(db.migrate(&vec![down]), Ok(vec![]));
    assert!(db.applied.is_empty());
    assert!(db.tables.is_empty());
}

#[test]
fn existing_table_only_records_version() {
    let mut db = Database::new();
    let changes = vec![change(1, base_images_table()), change(2, base_images_table())];
    assert_eq!(db.migrate(&changes), Ok(vec![1, 2]));
    assert_eq!(db.applied, vec![1, 2]);
    assert_eq!(db.tables.len(), 1);
}

#[test]
fn rows_need_their_tables() {
    let mut db = Database::new();
    assert_eq!(db.insert_base_image(s("a")), Err(RowError::NoSuchTable));
    assert_eq!(db.insert_template(s("t"), s("a")), Err(RowError::NoSuchTable));
}

#[test]
fn row_keys_and_references() {
    let mut db = Database::install();
    assert_eq!(db.insert_base_image(s("a")), Ok(()));
    assert_eq!(db.insert_base_image(s("a")), Err(RowError::DuplicateKey));
    assert_eq!(db.insert_template(s("t"), s("missing")), Err(RowError::MissingBaseImage));
    assert_eq!(db.insert_template(s("t"), s("a")), Ok(()));
    assert_eq!(db.insert_template(s("t"), s("a")), Err(RowError::DuplicateKey));
    assert_eq!(db.base_images, vec![s("a")]);
    assert_eq!(db.templates.len(), 1);
}

#[test]
fn delete_cascades_to_templates() {
    let mut db = Database::install();
    db.insert_base_image(s("a")).unwrap();
    db.insert_base_image(s("b")).unwrap();
    db.insert_template(s("t1"), s("a")).unwrap();
    db.insert_template(s("t2"), s("b")).unwrap();
    db.insert_template(s("t3"), s("a")).unwrap();
    assert!(db.delete_base_image(&s("a")));
    assert_eq!(db.base_images, vec![s("b")]);
    assert_eq!(db.templates.len(), 1);
    assert_eq!(db.templates[0].id, "t2");
    assert_eq!(db.templates[0].base_id, "b");
    assert!(!db.delete_base_image(&s("a")));
    assert_eq!(db.templates.len(), 1);
}
