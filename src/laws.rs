use vstd::prelude::*;

use crate::database::{
    empty_database, has_table, highest, installed_database, is_due, references_resolve, run, step, DatabaseView,
};
use crate::migration::{
    base_images_view, schema_history, templates_view, MigrationKind, SchemaChangeView,
};

verus! {

proof fn lemma_run_covers(db: DatabaseView, cs: Seq<SchemaChangeView>)
    requires
        run(db, cs).2 is None,
    ensures
        highest(run(db, cs).0.applied) >= highest(db.applied),
        forall|k: int|
            0 <= k < cs.len() && (#[trigger] cs[k]).kind == MigrationKind::Up ==> cs[k].version
                <= highest(run(db, cs).0.applied),
    decreases cs.len(),
{
    if cs.len() > 0 {
        let rest = cs.drop_last();
        lemma_run_covers(db, rest);
        let d = run(db, rest).0;
        let d2 = run(db, cs).0;
        assert(highest(d2.applied) >= highest(d.applied));
        assert forall|k: int|
            0 <= k < cs.len() && (#[trigger] cs[k]).kind == MigrationKind::Up implies cs[k].version
                <= highest(d2.applied) by {
            if k < cs.len() - 1 {
                assert(rest[k] == cs[k]);
            }
        }
    }
}

proof fn lemma_run_settled(d: DatabaseView, cs: Seq<SchemaChangeView>)
    requires
        forall|k: int|
            0 <= k < cs.len() && (#[trigger] cs[k]).kind == MigrationKind::Up ==> cs[k].version
                <= highest(d.applied),
    ensures
        run(d, cs) == (d, Seq::<i64>::empty(), None::<i64>),
    decreases cs.len(),
{
    if cs.len() > 0 {
        let rest = cs.drop_last();
        assert forall|k: int|
            0 <= k < rest.len() && (#[trigger] rest[k]).kind == MigrationKind::Up implies rest[k].version
                <= highest(d.applied) by {
            assert(rest[k] == cs[k]);
        }
        lemma_run_settled(d, rest);
        assert(cs.last() == cs[cs.len() - 1]);
        assert(!is_due(d, cs.last()));
    }
}

/// Migrating a second time with the same changes, after a first run that succeeded,
/// runs no statement and leaves the database as it was.
pub proof fn lemma_migrate_idempotent(db: DatabaseView, cs: Seq<SchemaChangeView>)
    requires
        run(db, cs).2 is None,
    ensures
        run(run(db, cs).0, cs) == (run(db, cs).0, Seq::<i64>::empty(), None::<i64>),
{
    lemma_run_covers(db, cs);
    lemma_run_settled(run(db, cs).0, cs);
}

/// The statements of a run execute in increasing version order, each newer than every
/// version applied before the run: a later version never runs before an earlier one.
pub proof fn lemma_run_in_version_order(db: DatabaseView, cs: Seq<SchemaChangeView>)
    ensures
        forall|i: int, j: int|
            0 <= i < j < run(db, cs).1.len() ==> run(db, cs).1[i] < run(db, cs).1[j],
        forall|i: int|
            0 <= i < run(db, cs).1.len() ==> highest(db.applied) < #[trigger] run(db, cs).1[i]
                <= highest(run(db, cs).0.applied),
        highest(db.applied) <= highest(run(db, cs).0.applied),
    decreases cs.len(),
{
    if cs.len() > 0 {
        let rest = cs.drop_last();
        lemma_run_in_version_order(db, rest);
        let (d, ran, failed) = run(db, rest);
        if failed is None {
            let c = cs.last();
            if step(d, c) is Some && is_due(d, c) {
                let r2 = ran.push(c.version);
                assert(highest(run(db, cs).0.applied) == c.version);
                assert forall|i: int| 0 <= i < r2.len() implies highest(db.applied) < #[trigger] r2[i]
                    <= c.version by {
                    if i < ran.len() {
                        assert(r2[i] == ran[i]);
                    }
                }
                assert forall|i: int, j: int| 0 <= i < j < r2.len() implies r2[i] < r2[j] by {
                    if j < ran.len() {
                        assert(r2[i] == ran[i] && r2[j] == ran[j]);
                    } else {
                        assert(r2[i] == ran[i]);
                    }
                }
            }
        }
    }
}

/// Creating `templates` while `base_images` does not exist fails, since its foreign
/// key has nothing to refer to: the history must be applied in its order.
pub proof fn lemma_templates_need_base_images(db: DatabaseView, c: SchemaChangeView)
    requires
        !has_table(db.tables, "base_images"@),
        !has_table(db.tables, "templates"@),
        c.table == templates_view(),
        is_due(db, c),
    ensures
        step(db, c) is None,
{
    reveal_strlit("base_images");
    reveal_strlit("templates");
    assert("base_images"@.len() != "templates"@.len());
    assert(!references_resolve(db.tables, c.table)) by {
        assert(c.table.foreign_keys[0].table == "base_images"@);
    }
}

/// Migrating a database that has nothing yet applies version 1, then version 2, and
/// leaves exactly the two tables and no rows.
pub proof fn lemma_fresh_install()
    ensures
        run(empty_database(), schema_history()) == (installed_database(), seq![1i64, 2i64], None::<
            i64,
        >),
{
    reveal_strlit("base_images");
    reveal_strlit("templates");
    assert("base_images"@.len() != "templates"@.len());
    let h = schema_history();
    let e = empty_database();
    assert(h.drop_last() =~= seq![h[0]]);
    assert(seq![h[0]].drop_last() =~= Seq::<SchemaChangeView>::empty());
    let d1 = DatabaseView { applied: seq![1i64], tables: seq![base_images_view()], ..e };
    assert(e.applied.push(1i64) =~= seq![1i64]);
    assert(e.tables.push(base_images_view()) =~= seq![base_images_view()]);
    assert(!has_table(e.tables, base_images_view().name));
    assert(references_resolve(e.tables, base_images_view()));
    assert(step(e, h[0]) == Some(d1));
    assert(Seq::<i64>::empty().push(1i64) =~= seq![1i64]);
    assert(run(e, Seq::<SchemaChangeView>::empty()) == (e, Seq::<i64>::empty(), None::<i64>));
    assert(seq![h[0]].last() == h[0]);
    assert(is_due(e, h[0]));
    assert(run(e, seq![h[0]]) == (d1, seq![1i64], None::<i64>));
    assert(!has_table(d1.tables, templates_view().name)) by {
        assert(d1.tables[0].name == "base_images"@);
    }
    assert(has_table(d1.tables, "base_images"@)) by {
        assert(d1.tables[0].name == "base_images"@);
    }
    assert(references_resolve(d1.tables, templates_view())) by {
        assert(templates_view().foreign_keys[0].table == "base_images"@);
    }
    assert(d1.applied.push(2i64) =~= seq![1i64, 2i64]);
    assert(d1.tables.push(templates_view()) =~= seq![base_images_view(), templates_view()]);
    assert(seq![1i64].push(2i64) =~= seq![1i64, 2i64]);
    assert(is_due(d1, h[1]));
    assert(step(d1, h[1]) == Some(installed_database()));
    assert(h.last() == h[1]);
}

} // verus!
