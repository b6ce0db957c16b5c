use orm::attr::{LitKind, MetaItem, MetaItemKind, NestedMetaItem};
use orm::entity::{EntityInner, EntityStore};
use orm::execute::Execute;
use orm::insert::Insert;
use orm::meta::OrmMeta;
use orm::plan::{Action, Refusal, Runner};
use orm::value::{EntityId, FieldValue, Value};
use orm::visitor::{visit_krate, StructField, StructItem};

fn word(name: &str) -> MetaItem {
    MetaItem { name: name.to_string(), node: MetaItemKind::Word }
}

fn list(name: &str, values: &[&str]) -> MetaItem {
    let items = values
        .iter()
        .map(|v| NestedMetaItem::MetaItem(MetaItem { name: v.to_string(), node: MetaItemKind::Word }))
        .collect();
    MetaItem { name: name.to_string(), node: MetaItemKind::List(items) }
}

fn text(name: &str, value: &str) -> MetaItem {
    MetaItem { name: name.to_string(), node: MetaItemKind::List(vec![NestedMetaItem::Literal(LitKind::Str(value.to_string()))]) }
}

fn field(name: &str, ty: &str, attrs: Vec<MetaItem>) -> StructField {
    StructField { name: name.to_string(), ty: ty.to_string(), attrs: attrs }
}

fn item(name: &str, attrs: Vec<MetaItem>, fields: Vec<StructField>) -> StructItem {
    StructItem { name: name.to_string(), attrs: attrs, fields: Some(fields) }
}

/// The entities of the client's tests: `Test` with a pointer, a one-to-one and
/// a one-to-many relation, each cascading insertion.
fn client_meta() -> OrmMeta {
    let test = item(
        "Test",
        vec![text("table", "tbl_test")],
        vec![
            field("int_val", "i32", vec![]),
            field("str_val", "String", vec![]),
            field("ptr", "Ptr", vec![word("pointer"), list("cascade", &["insert"])]),
            field("oo", "Oo", vec![word("one_one"), list("cascade", &["insert"])]),
            field("om", "Om", vec![word("one_many"), list("cascade", &["insert"])]),
        ],
    );
    let ptr = item("Ptr", vec![], vec![field("int_val", "i64", vec![])]);
    let oo = item("Oo", vec![], vec![field("int_val", "i64", vec![])]);
    let om = item("Om", vec![], vec![field("int_val", "i64", vec![])]);
    visit_krate(&vec![test, ptr, oo, om])
}

/// The entities of `Test` alone, as the client declares it.
fn plain_meta() -> OrmMeta {
    let test = item(
        "Test",
        vec![text("table", "tbl_test")],
        vec![field("int_val", "i32", vec![]), field("str_val", "String", vec![])],
    );
    visit_krate(&vec![test])
}

fn new_entity(orm: &OrmMeta, store: &mut EntityStore, name: &str) -> EntityId {
    let meta = orm.get_entity(name).unwrap();
    store.add(EntityInner::default(meta))
}

/// A database that accepts every `INSERT`, affecting one row, and numbers the
/// rows of each table from 1.
struct FakeDb {
    next: Vec<(String, u64)>,
    statements: Vec<String>,
}

impl FakeDb {
    fn new() -> FakeDb {
        FakeDb { next: Vec::new(), statements: Vec::new() }
    }

    fn insert(&mut self, sql: &str) -> u64 {
        self.statements.push(sql.to_string());
        let table = sql.split('`').nth(1).unwrap().to_string();
        for entry in self.next.iter_mut() {
            if entry.0 == table {
                entry.1 += 1;
                return entry.1;
            }
        }
        self.next.push((table, 1));
        1
    }

    fn run(&mut self, runner: &mut Runner, orm: &OrmMeta, store: &mut EntityStore) -> Result<u64, Refusal> {
        loop {
            match runner.step(orm, store) {
                Action::Continue => {},
                Action::Exec(st) => {
                    let id = self.insert(&st.sql);
                    match runner.report(orm, store, 1, id) {
                        Action::Continue => {},
                        Action::Abort(why) => return Err(why),
                        other => panic!("unexpected {:?}", other),
                    }
                },
                Action::Done(n) => return Ok(n),
                Action::Abort(why) => return Err(why),
            }
        }
    }
}

fn value_of(store: &EntityStore, id: EntityId, field: &str) -> Option<u64> {
    match store.get(id).get(field) {
        Some(FieldValue::Value(v)) => v.as_u64(),
        _ => None,
    }
}

pub fn insert_test() {
    let orm = plain_meta();
    let mut store = EntityStore::new();
    let t = new_entity(&orm, &mut store, "Test");
    store.set_field(t, "int_val", FieldValue::Value(Value::Int(100)));
    store.set_field(t, "str_val", FieldValue::Value(Value::Text("hello world".to_string())));

    let insert = Execute::insert();
    let mut runner = insert.start(t);
    let mut db = FakeDb::new();
    let res = db.run(&mut runner, &orm, &mut store).unwrap();
    assert!(res == 1);
    assert!(value_of(&store, t, "id") == Some(1));
    assert_eq!(db.statements, vec!["INSERT INTO `tbl_test` SET `int_val` = :int_val, `str_val` = :str_val".to_string()]);
}

#[test]
fn test() {
    insert_test();
}

fn refer_graph(orm: &OrmMeta, store: &mut EntityStore, with_many: bool) -> (EntityId, EntityId, EntityId) {
    let t = new_entity(orm, store, "Test");
    store.set_field(t, "int_val", FieldValue::Value(Value::Int(100)));
    store.set_field(t, "str_val", FieldValue::Value(Value::Text("hello world".to_string())));
    let p = new_entity(orm, store, "Ptr");
    store.set_entity(orm, t, "ptr", Some(p));
    store.set_field(p, "int_val", FieldValue::Value(Value::Int(200)));
    let o = new_entity(orm, store, "Oo");
    store.set_entity(orm, t, "oo", Some(o));
    store.set_field(o, "int_val", FieldValue::Value(Value::Int(300)));
    if with_many {
        let m1 = new_entity(orm, store, "Om");
        let m2 = new_entity(orm, store, "Om");
        store.set_field(t, "om", FieldValue::Vec(vec![m1, m2]));
        store.set_field(m1, "int_val", FieldValue::Value(Value::Int(400)));
        store.set_field(m2, "int_val", FieldValue::Value(Value::Int(500)));
    }
    (t, p, o)
}

#[test]
fn insert_refer_test() {
    let orm = client_meta();
    let mut store = EntityStore::new();
    let (t, p, o) = refer_graph(&orm, &mut store, true);
    let mut insert = Insert::new();
    insert.with("ptr");
    insert.with("oo");
    insert.with("om");
    let mut runner = insert.start(t);
    let mut db = FakeDb::new();
    let res = db.run(&mut runner, &orm, &mut store).unwrap();
    assert!(value_of(&store, t, "id") == Some(1));
    assert!(value_of(&store, t, "ptr_id") == Some(1));
    assert!(value_of(&store, p, "id") == Some(1));
    assert!(value_of(&store, o, "test_id") == Some(1));
    assert!(value_of(&store, o, "id") == Some(1));
    assert!(res == 5);
}

#[test]
fn insert_refer_exists_test() {
    let orm = client_meta();
    let mut store = EntityStore::new();
    let (t, p, o) = refer_graph(&orm, &mut store, false);
    let mut insert = Insert::new();
    insert.with("ptr");
    insert.with("oo");
    let mut runner = insert.start(t);
    let mut db = FakeDb::new();
    let res = db.run(&mut runner, &orm, &mut store).unwrap();
    assert!(value_of(&store, t, "id") == Some(1));
    assert!(value_of(&store, t, "ptr_id") == Some(1));
    assert!(value_of(&store, p, "id") == Some(1));
    assert!(value_of(&store, o, "test_id") == Some(1));
    assert!(value_of(&store, o, "id") == Some(1));
    assert!(res == 3);
}

#[test]
fn insert_order_pointer_self_one_one_one_many() {
    let orm = client_meta();
    let mut store = EntityStore::new();
    let (t, _, _) = refer_graph(&orm, &mut store, true);
    let mut insert = Insert::new();
    insert.with("om");
    insert.with("oo");
    insert.with("ptr");
    let mut runner = insert.start(t);
    let mut db = FakeDb::new();
    db.run(&mut runner, &orm, &mut store).unwrap();
    assert_eq!(
        db.statements,
        vec![
            "INSERT INTO `Ptr` SET `int_val` = :int_val".to_string(),
            "INSERT INTO `tbl_test` SET `int_val` = :int_val, `str_val` = :str_val, `ptr_id` = :ptr_id".to_string(),
            "INSERT INTO `Oo` SET `int_val` = :int_val, `test_id` = :test_id".to_string(),
            "INSERT INTO `Om` SET `int_val` = :int_val, `test_id` = :test_id".to_string(),
            "INSERT INTO `Om` SET `int_val` = :int_val, `test_id` = :test_id".to_string(),
        ]
    );
}

#[test]
fn insert_one_many_gets_owner_key() {
    let orm = client_meta();
    let mut store = EntityStore::new();
    let (t, _, _) = refer_graph(&orm, &mut store, true);
    let mut insert = Insert::new();
    insert.with("om");
    let mut runner = insert.start(t);
    let mut db = FakeDb::new();
    let res = db.run(&mut runner, &orm, &mut store).unwrap();
    assert_eq!(res, 3);
    let items = match store.get(t).get("om") {
        Some(FieldValue::Vec(v)) => v.clone(),
        _ => panic!("no list"),
    };
    assert_eq!(value_of(&store, items[0], "test_id"), Some(1));
    assert_eq!(value_of(&store, items[1], "test_id"), Some(1));
    assert_eq!(value_of(&store, items[0], "id"), Some(1));
    assert_eq!(value_of(&store, items[1], "id"), Some(2));
}

#[test]
fn insert_default_follows_cascades() {
    let orm = client_meta();
    let meta = orm.get_entity("Test").unwrap();
    let insert = Insert::default_meta(meta, &orm).unwrap();
    let names: Vec<String> = insert.withs.iter().map(|w| w.0.clone()).collect();
    assert_eq!(names, vec!["ptr".to_string(), "oo".to_string(), "om".to_string()]);
    let mut store = EntityStore::new();
    let (t, _, _) = refer_graph(&orm, &mut store, true);
    let mut runner = insert.start(t);
    let mut db = FakeDb::new();
    assert_eq!(db.run(&mut runner, &orm, &mut store).unwrap(), 5);
}

#[test]
fn insert_default_refuses_cycle() {
    let a = item("A", vec![], vec![field("b", "B", vec![word("pointer"), list("cascade", &["insert"])])]);
    let b = item("B", vec![], vec![field("a", "A", vec![word("pointer"), list("cascade", &["insert"])])]);
    let orm = visit_krate(&vec![a, b]);
    let meta = orm.get_entity("A").unwrap();
    assert!(Insert::default_meta(meta, &orm).is_none());
}

#[test]
fn insert_plan_nodes_pre_order() {
    let mut insert = Insert::new();
    insert.with("ptr").with("x");
    insert.with("oo");
    let plan = insert.plan();
    assert_eq!(plan.len(), 4);
    assert_eq!(plan[0].withs.iter().map(|w| w.1).collect::<Vec<usize>>(), vec![1, 3]);
    assert_eq!(plan[1].withs.iter().map(|w| w.1).collect::<Vec<usize>>(), vec![2]);
    assert!(plan[0].check_id && plan[0].copy_keys && plan[0].store_self);
}

#[test]
fn execute_update_is_not_run() {
    let orm = plain_meta();
    let mut store = EntityStore::new();
    let t = new_entity(&orm, &mut store, "Test");
    let mut runner = Execute::update().start(t);
    let mut db = FakeDb::new();
    assert_eq!(db.run(&mut runner, &orm, &mut store), Err(Refusal::NotInsert));
    let mut runner = Execute::delete().start(t);
    assert_eq!(db.run(&mut runner, &orm, &mut store), Err(Refusal::NotInsert));
    assert!(db.statements.is_empty());
}

#[test]
fn insert_refuses_unset_key() {
    let test = item(
        "Test",
        vec![],
        vec![field("id", "u64", vec![]), field("int_val", "i32", vec![])],
    );
    let orm = visit_krate(&vec![test]);
    let mut store = EntityStore::new();
    let t = new_entity(&orm, &mut store, "Test");
    // A key that the database does not generate must be given a value.
    store.set_field(t, "id", FieldValue::Value(Value::NULL));
    let mut runner = Insert::new().start(t);
    let mut db = FakeDb::new();
    assert_eq!(db.run(&mut runner, &orm, &mut store), Err(Refusal::KeyNotGenerated));
    assert!(db.statements.is_empty());
    // An assigned key passes and is stored as it is.
    store.set_field(t, "id", FieldValue::Value(Value::UInt(7)));
    let mut runner = Insert::new().start(t);
    assert_eq!(db.run(&mut runner, &orm, &mut store), Ok(1));
    assert_eq!(db.statements, vec!["INSERT INTO `Test` SET `id` = :id, `int_val` = :int_val".to_string()]);
    assert_eq!(value_of(&store, t, "id"), Some(7));
}

#[test]
fn insert_statement_values() {
    let orm = plain_meta();
    let mut store = EntityStore::new();
    let t = new_entity(&orm, &mut store, "Test");
    store.set_field(t, "int_val", FieldValue::Value(Value::Int(100)));
    store.set_field(t, "str_val", FieldValue::Value(Value::Text("hello world".to_string())));
    let mut runner = Execute::insert().start(t);
    let mut statement = None;
    loop {
        match runner.step(&orm, &mut store) {
            Action::Continue => {},
            Action::Exec(st) => {
                statement = Some(st);
                break;
            },
            other => panic!("unexpected {:?}", other),
        }
    }
    let st = statement.unwrap();
    assert_eq!(st.params.len(), 2);
    assert_eq!(st.params[0].0, "int_val");
    assert!(matches!(st.params[0].1, Value::Int(100)));
    assert_eq!(st.params[1].0, "str_val");
    assert!(matches!(&st.params[1].1, Value::Text(s) if s == "hello world"));
    assert!(runner.awaiting());
    assert!(matches!(runner.report(&orm, &mut store, 1, 42), Action::Continue));
    assert_eq!(value_of(&store, t, "id"), Some(42));
}

#[test]
fn report_overflow_stops() {
    let orm = plain_meta();
    let mut store = EntityStore::new();
    let t = new_entity(&orm, &mut store, "Test");
    let mut runner = Execute::insert().start(t);
    runner.total = u64::MAX;
    loop {
        match runner.step(&orm, &mut store) {
            Action::Continue => {},
            Action::Exec(_) => break,
            other => panic!("unexpected {:?}", other),
        }
    }
    assert!(matches!(runner.report(&orm, &mut store, 1, 1), Action::Abort(Refusal::Overflow)));
}

#[test]
fn set_entity_one_one_copies_key() {
    let orm = client_meta();
    let mut store = EntityStore::new();
    let t = new_entity(&orm, &mut store, "Test");
    let o1 = new_entity(&orm, &mut store, "Oo");
    let o2 = new_entity(&orm, &mut store, "Oo");
    store.set_field(t, "id", FieldValue::Value(Value::UInt(9)));
    store.set_entity(&orm, t, "oo", Some(o1));
    assert_eq!(value_of(&store, o1, "test_id"), Some(9));
    assert_eq!(value_of(&store, t, "id"), Some(9));
    store.set_entity(&orm, t, "oo", Some(o2));
    assert!(matches!(store.get(o1).get("test_id"), Some(FieldValue::Value(Value::NULL))));
    assert_eq!(value_of(&store, o2, "test_id"), Some(9));
    assert!(matches!(store.get(t).get("oo"), Some(FieldValue::Entity(Some(x))) if *x == o2));
}

#[test]
fn set_entity_pointer_copies_key() {
    let orm = client_meta();
    let mut store = EntityStore::new();
    let t = new_entity(&orm, &mut store, "Test");
    let p = new_entity(&orm, &mut store, "Ptr");
    store.set_field(p, "id", FieldValue::Value(Value::UInt(5)));
    store.set_entity(&orm, t, "ptr", Some(p));
    assert_eq!(value_of(&store, t, "ptr_id"), Some(5));
    store.set_entity(&orm, t, "ptr", None);
    assert!(matches!(store.get(t).get("ptr_id"), Some(FieldValue::Value(Value::NULL))));
    assert!(matches!(store.get(t).get("ptr"), Some(FieldValue::Entity(None))));
}

#[test]
fn insert_alone_like_execute() {
    let orm = plain_meta();
    let mut store = EntityStore::new();
    let t = new_entity(&orm, &mut store, "Test");
    store.set_field(t, "int_val", FieldValue::Value(Value::Int(1)));
    let mut runner = Insert::new().start(t);
    let mut db = FakeDb::new();
    assert_eq!(db.run(&mut runner, &orm, &mut store), Ok(1));
    let u = new_entity(&orm, &mut store, "Test");
    store.set_field(u, "int_val", FieldValue::Value(Value::Int(1)));
    let mut runner = Execute::insert().start(u);
    assert_eq!(db.run(&mut runner, &orm, &mut store), Ok(1));
    assert_eq!(db.statements[0], db.statements[1]);
    assert_eq!(value_of(&store, t, "id"), Some(1));
    assert_eq!(value_of(&store, u, "id"), Some(2));
}

#[test]
fn dangling_entity_is_unreadable() {
    let orm = plain_meta();
    let mut store = EntityStore::new();
    let mut runner = Execute::insert().start(5);
    let mut db = FakeDb::new();
    assert_eq!(db.run(&mut runner, &orm, &mut store), Err(Refusal::Unreadable));
}
