use orm::attr::{LitKind, MetaItem, MetaItemKind, NestedMetaItem};
use orm::cond::{Cond, JoinCond};
use orm::entity::EntityStore;
use orm::meta::OrmMeta;
use orm::select::Select;
use orm::value::{EntityId, FieldValue, Value};
use orm::visitor::{visit_krate, StructField, StructItem};

fn q_word(name: &str) -> MetaItem {
    MetaItem { name: name.to_string(), node: MetaItemKind::Word }
}

fn q_list(name: &str, values: &[&str]) -> MetaItem {
    let items = values
        .iter()
        .map(|v| NestedMetaItem::MetaItem(MetaItem { name: v.to_string(), node: MetaItemKind::Word }))
        .collect();
    MetaItem { name: name.to_string(), node: MetaItemKind::List(items) }
}

fn q_field(name: &str, ty: &str, attrs: Vec<MetaItem>) -> StructField {
    StructField { name: name.to_string(), ty: ty.to_string(), attrs: attrs }
}

fn q_meta() -> OrmMeta {
    let test = StructItem {
        name: "Test".to_string(),
        attrs: vec![MetaItem {
            name: "table".to_string(),
            node: MetaItemKind::List(vec![NestedMetaItem::Literal(LitKind::Str("tbl_test".to_string()))]),
        }],
        fields: Some(vec![
            q_field("int_val", "i32", vec![]),
            q_field("str_val", "String", vec![]),
            q_field("ptr", "Ptr", vec![q_word("pointer"), q_list("cascade", &["insert"])]),
            q_field("oo", "Oo", vec![q_word("one_one"), q_list("cascade", &["insert"])]),
            q_field("om", "Om", vec![q_word("one_many"), q_list("cascade", &["insert"])]),
        ]),
    };
    let other = |name: &str| StructItem {
        name: name.to_string(),
        attrs: vec![],
        fields: Some(vec![q_field("int_val", "i64", vec![])]),
    };
    visit_krate(&vec![test, other("Ptr"), other("Oo"), other("Om")])
}

fn row(cols: &[(&str, Value)]) -> Vec<(String, Value)> {
    cols.iter().map(|(k, v)| (k.to_string(), v.clone())).collect()
}

fn int_of(store: &EntityStore, id: EntityId, field: &str) -> Option<i64> {
    match store.get(id).get(field) {
        Some(FieldValue::Value(Value::Int(v))) => Some(*v),
        _ => None,
    }
}

fn entity_of(store: &EntityStore, id: EntityId, field: &str) -> EntityId {
    match store.get(id).get(field) {
        Some(FieldValue::Entity(Some(x))) => *x,
        other => panic!("no entity: {:?}", other),
    }
}

fn list_of(store: &EntityStore, id: EntityId, field: &str) -> Vec<EntityId> {
    match store.get(id).get(field) {
        Some(FieldValue::Vec(v)) => v.clone(),
        other => panic!("no list: {:?}", other),
    }
}

/// The rows that the database gives for `Test` with its pointer, one-to-one
/// and one-to-many relations after the client's insertion.
fn test_rows(prefix: &str) -> Vec<Vec<(String, Value)>> {
    let mut rows = Vec::new();
    for (om_id, om_val) in [(1u64, 400i64), (2, 500)].iter() {
        let mut cols = vec![
            ("test$id".to_string(), Value::UInt(1)),
            ("test$int_val".to_string(), Value::Int(100)),
            ("test$str_val".to_string(), Value::Text("hello world".to_string())),
            ("test$ptr_id".to_string(), Value::UInt(1)),
            ("test_ptr$id".to_string(), Value::UInt(1)),
            ("test_ptr$int_val".to_string(), Value::Int(200)),
            ("test_oo$id".to_string(), Value::UInt(1)),
            ("test_oo$int_val".to_string(), Value::Int(300)),
            ("test_oo$test_id".to_string(), Value::UInt(1)),
            ("test_om$id".to_string(), Value::UInt(*om_id)),
            ("test_om$int_val".to_string(), Value::Int(*om_val)),
            ("test_om$test_id".to_string(), Value::UInt(1)),
        ];
        if !prefix.is_empty() {
            cols.push((format!("{}$id", prefix), Value::UInt(1)));
            cols.push((format!("{}$int_val", prefix), Value::Int(100)));
            cols.push((format!("{}_om$id", prefix), Value::UInt(*om_id)));
            cols.push((format!("{}_om$int_val", prefix), Value::Int(*om_val)));
        }
        rows.push(cols);
    }
    rows
}

#[test]
fn insert_select_test() {
    let orm = q_meta();
    let meta = orm.get_entity("Test").unwrap();
    let mut select = Select::new(meta, &orm);
    select.wher(&Cond::by_id(Value::UInt(1)));
    select.with("ptr");
    select.with("oo");
    select.with("om");
    assert!(select.imp.is_renderable());
    let mut store = EntityStore::new();
    let res = select.imp.from_rows(&test_rows(""), &mut store).unwrap();
    let t = res[0][0];
    assert!(int_of(&store, t, "int_val") == Some(100));
    assert!(int_of(&store, entity_of(&store, t, "ptr"), "int_val") == Some(200));
    assert!(int_of(&store, entity_of(&store, t, "oo"), "int_val") == Some(300));
    let om = list_of(&store, t, "om");
    assert!(int_of(&store, om[0], "int_val") == Some(400));
    assert!(int_of(&store, om[1], "int_val") == Some(500));
    assert_eq!(res[0].len(), 1);
}

#[test]
fn join_test() {
    let orm = q_meta();
    let meta = orm.get_entity("Test").unwrap();
    let mut select = Select::new(meta, &orm);
    select.wher(&Cond::by_id(Value::UInt(1)));
    select.with("ptr");
    select.with("oo");
    select.with("om");
    {
        let join = select.join(meta, &JoinCond::by_eq("id", "id"));
        join.wher(&Cond::by_gt("id", Value::Int(0)));
        join.with("om");
    }
    assert!(select.imp.is_renderable());
    let mut store = EntityStore::new();
    let res = select.imp.from_rows(&test_rows("test_test"), &mut store).unwrap();
    let t = res[0][0];
    let t2 = res[1][0];
    assert!(int_of(&store, t, "int_val") == Some(100));
    assert!(int_of(&store, entity_of(&store, t, "ptr"), "int_val") == Some(200));
    assert!(int_of(&store, entity_of(&store, t, "oo"), "int_val") == Some(300));
    let om = list_of(&store, t, "om");
    assert!(int_of(&store, om[0], "int_val") == Some(400));
    assert!(int_of(&store, om[1], "int_val") == Some(500));
    assert!(int_of(&store, t2, "int_val") == Some(100));
    let om2 = list_of(&store, t2, "om");
    assert!(int_of(&store, om2[0], "int_val") == Some(400));
    assert!(int_of(&store, om2[1], "int_val") == Some(500));
    assert_eq!(res.len(), 2);
    assert_eq!(res[1].len(), 1);
}

#[test]
fn select_plain_sql() {
    let orm = q_meta();
    let meta = orm.get_entity("Ptr").unwrap();
    let select = Select::new(meta, &orm);
    assert_eq!(
        select.imp.get_sql(),
        "SELECT\n\tptr.id AS ptr$id,\n\tptr.int_val AS ptr$int_val\nFROM\n\tPtr as ptr\nWHERE\n\t1 = 1"
    );
    assert!(select.imp.get_params().is_empty());
    assert_eq!(select.imp.get_conds(), vec!["1 = 1".to_string()]);
}

#[test]
fn select_with_tables() {
    let orm = q_meta();
    let meta = orm.get_entity("Test").unwrap();
    let mut select = Select::new(meta, &orm);
    select.with("ptr");
    select.with("om");
    assert_eq!(
        select.imp.get_tables(),
        vec![
            "tbl_test as test".to_string(),
            "LEFT JOIN Ptr AS test_ptr ON test.ptr_id = test_ptr.id".to_string(),
            "LEFT JOIN Om AS test_om ON test.id = test_om.test_id".to_string(),
        ]
    );
    assert_eq!(select.imp.get_columns().len(), 3);
}

#[test]
fn select_cond_params() {
    let orm = q_meta();
    let meta = orm.get_entity("Ptr").unwrap();
    let mut select = Select::new(meta, &orm);
    let mut cond = Cond::by_gt("int_val", Value::Int(5));
    cond.lt("int_val", Value::Int(9));
    select.wher(&cond);
    let params = select.imp.get_params();
    assert_eq!(params.len(), 2);
    assert_eq!(select.imp.get_conds().len(), 1);
    assert!(select.imp.get_sql().ends_with(&select.imp.get_conds()[0]));
}

#[test]
fn rows_without_key_give_nothing() {
    let orm = q_meta();
    let meta = orm.get_entity("Ptr").unwrap();
    let select = Select::new(meta, &orm);
    let mut store = EntityStore::new();
    let rows = vec![row(&[("ptr$id", Value::NULL), ("ptr$int_val", Value::Int(3))])];
    let res = select.imp.from_rows(&rows, &mut store).unwrap();
    assert_eq!(res, vec![Vec::<EntityId>::new()]);
    assert_eq!(store.len(), 0);
}

#[test]
fn rows_repeat_once() {
    let orm = q_meta();
    let meta = orm.get_entity("Ptr").unwrap();
    let select = Select::new(meta, &orm);
    let mut store = EntityStore::new();
    let r1 = row(&[("ptr$id", Value::UInt(4)), ("ptr$int_val", Value::Int(3))]);
    let r2 = row(&[("ptr$id", Value::UInt(5)), ("ptr$int_val", Value::Int(6))]);
    let rows = vec![r1.clone(), r2, r1];
    let res = select.imp.from_rows(&rows, &mut store).unwrap();
    assert_eq!(res[0].len(), 2);
    assert_eq!(store.len(), 2);
    assert_eq!(int_of(&store, res[0][1], "int_val"), Some(6));
}

#[test]
fn can_with_checks_relations() {
    let orm = q_meta();
    let meta = orm.get_entity("Test").unwrap();
    let select = Select::new(meta, &orm);
    assert!(select.imp.can_with("ptr"));
    assert!(!select.imp.can_with("int_val"));
    assert!(!select.imp.can_with("missing"));
}

/// The `:name` placeholders of a statement's text.
fn placeholders_of(sql: &str) -> Vec<String> {
    let chars: Vec<char> = sql.chars().collect();
    let mut out = Vec::new();
    for i in 0..chars.len() {
        if chars[i] == ':' {
            let name: String = chars[i + 1..]
                .iter()
                .take_while(|c| !matches!(c, ' ' | '\n' | '\t' | ':'))
                .collect();
            out.push(name);
        }
    }
    out
}

#[test]
fn params_match_placeholders() {
    let orm = q_meta();
    let meta = orm.get_entity("Test").unwrap();
    let mut select = Select::new(meta, &orm);
    let mut cond = Cond::by_id(Value::UInt(1));
    cond.is_null("str_val");
    select.wher(&cond);
    select.with("ptr");
    {
        let join = select.join(meta, &JoinCond::by_eq("id", "id"));
        join.on(&Cond::by_lt("int_val", Value::Int(7)));
        join.wher(&Cond::by_gt("id", Value::Int(0)));
    }
    let mut names: Vec<String> = select.imp.get_params().into_iter().map(|p| p.0).collect();
    let mut holes = placeholders_of(&select.imp.get_sql());
    assert_eq!(names.len(), 3);
    names.sort();
    holes.sort();
    assert_eq!(names, holes);
}

#[test]
fn identity_map_keeps_first_row() {
    let orm = q_meta();
    let meta = orm.get_entity("Ptr").unwrap();
    let select = Select::new(meta, &orm);
    let mut store = EntityStore::new();
    let r1 = row(&[("ptr$id", Value::UInt(4)), ("ptr$int_val", Value::Int(3))]);
    let r2 = row(&[("ptr$id", Value::NULL), ("ptr$int_val", Value::Int(8))]);
    let r3 = row(&[("ptr$id", Value::UInt(4)), ("ptr$int_val", Value::Int(9))]);
    let res = select.imp.from_rows(&vec![r1, r2, r3], &mut store).unwrap();
    assert_eq!(res[0].len(), 1);
    assert_eq!(store.len(), 1);
    assert_eq!(int_of(&store, res[0][0], "int_val"), Some(3));
}

#[test]
fn field_selections_cover_fields() {
    let orm = q_meta();
    let meta = orm.get_entity("Test").unwrap();
    let total = meta.get_non_refer_fields().len()
        + meta.get_refer_fields().len()
        + meta.get_pointer_fields().len()
        + meta.get_one_one_fields().len()
        + meta.get_one_many_fields().len();
    assert_eq!(total, meta.get_fields().len());
    assert_eq!(meta.get_pointer_fields().len(), 1);
    assert_eq!(meta.get_one_many_fields().len(), 1);
}

#[test]
fn builders_nest_aliases() {
    let orm = q_meta();
    let meta = orm.get_entity("Test").unwrap();
    let mut select = Select::new(meta, &orm);
    select.with("ptr");
    select.with("om");
    assert_eq!(select.imp.alias, "test");
    assert_eq!(select.imp.withs[0].1.alias, "test_ptr");
    assert_eq!(select.imp.withs[1].1.alias, "test_om");
}
