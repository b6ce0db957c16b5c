use orm::attr::{visit_attrs, visit_meta, Attr, LitKind, MetaItem, MetaItemKind, NestedMetaItem};
use orm::entity::{EntityInner, EntityStore};
use orm::formatter::format_meta;
use orm::meta::{Cascade, EntityMeta, Fetch, FieldMeta, OrmMeta};
use orm::sql::{sql_create_table, sql_drop_table};
use orm::value::{FieldValue, Value};
use orm::visitor::{field_checked, struct_checked, visit_krate, visit_krate_checked, StructField, StructItem};

fn m_word(name: &str) -> MetaItem {
    MetaItem { name: name.to_string(), node: MetaItemKind::Word }
}

fn m_values(name: &str, values: &[&str]) -> MetaItem {
    let items = values
        .iter()
        .map(|v| NestedMetaItem::MetaItem(MetaItem { name: v.to_string(), node: MetaItemKind::Word }))
        .collect();
    MetaItem { name: name.to_string(), node: MetaItemKind::List(items) }
}

fn m_lit(name: &str, lit: LitKind) -> MetaItem {
    MetaItem { name: name.to_string(), node: MetaItemKind::List(vec![NestedMetaItem::Literal(lit)]) }
}

fn m_field(name: &str, ty: &str, attrs: Vec<MetaItem>) -> StructField {
    StructField { name: name.to_string(), ty: ty.to_string(), attrs: attrs }
}

fn person() -> StructItem {
    StructItem {
        name: "Person".to_string(),
        attrs: vec![],
        fields: Some(vec![
            m_field("name", "String", vec![m_lit("len", LitKind::Int(32))]),
            m_field("age", "i32", vec![m_lit("nullable", LitKind::Bool(false))]),
        ]),
    }
}

fn person_meta() -> OrmMeta {
    visit_krate(&vec![person()])
}

#[test]
fn visit_krate_person() {
    let orm = person_meta();
    assert_eq!(orm.entity_vec, vec!["Person".to_string()]);
    let meta = orm.get_entity("Person").unwrap();
    assert_eq!(meta.table_name, "Person");
    assert_eq!(meta.alias, "person");
    assert_eq!(meta.field_vec, vec!["id".to_string(), "name".to_string(), "age".to_string()]);
    assert!(matches!(meta.get_field("id"), Some(FieldMeta::Id { auto: true })));
    assert!(matches!(meta.get_field("name"), Some(FieldMeta::String { len: 32, nullable: true, .. })));
    assert!(matches!(meta.get_field("age"), Some(FieldMeta::Integer { nullable: false, .. })));
    assert!(meta.is_id_auto());
}

#[test]
fn create_table_sql() {
    let orm = person_meta();
    let meta = orm.get_entity("Person").unwrap();
    assert!(meta.table_ready());
    assert_eq!(
        sql_create_table(meta),
        "CREATE TABLE IF NOT EXISTS `Person`(`id` BIGINT PRIMARY KEY NOT NULL AUTO_INCREMENT, `name` VARCHAR(32), `age` INTEGER NOT NULL)"
    );
    assert_eq!(sql_drop_table(meta), "DROP TABLE IF EXISTS `Person`");
}

#[test]
fn entity_statements() {
    let orm = person_meta();
    let meta = orm.get_entity("Person").unwrap();
    assert_eq!(meta.sql_insert(), "INSERT INTO `Person`(name, age) VALUES (:name, :age)");
    assert_eq!(meta.sql_update(), "UPDATE `Person` SET name = :name, age = :age where id = :id");
    assert_eq!(meta.sql_get(), "SELECT * FROM `Person` WHERE id = :id");
    assert_eq!(meta.sql_delete(), "DELETE FROM `Person` WHERE id = :id");
    let mut e = EntityInner::default(meta);
    e.set_value("name", Value::Text("bob".to_string()));
    e.set_id(3);
    let st = e.update_statement(meta);
    assert_eq!(st.params.len(), 3);
    assert_eq!(st.params[0].0, "id");
    assert!(matches!(st.params[0].1, Value::UInt(3)));
    assert!(matches!(&st.params[1].1, Value::Text(s) if s == "bob"));
    assert!(matches!(st.params[2].1, Value::NULL));
    let del = e.delete_statement(meta);
    assert!(matches!(del.params[0].1, Value::UInt(3)));
}

#[test]
fn entity_values_read_after_write() {
    let orm = person_meta();
    let meta = orm.get_entity("Person").unwrap();
    let mut e = EntityInner::new(meta);
    assert!(e.get("age").is_none());
    assert!(!e.is_value_null("age"));
    e.set_value_null("age");
    assert!(e.is_value_null("age"));
    e.set_value("age", Value::Int(7));
    e.set_value("name", Value::Text("x".to_string()));
    assert!(matches!(e.get_value("age"), Value::Int(7)));
    assert!(matches!(e.get_value("name"), Value::Text(ref s) if s == "x"));
    assert!(matches!(e.get_id_value(), Value::NULL));
    let values = e.get_values(meta);
    assert_eq!(values.len(), 2);
    assert!(matches!(values[1], Value::Int(7)));
}

#[test]
fn relations_get_key_fields() {
    let a = StructItem {
        name: "A".to_string(),
        attrs: vec![m_values("alias", &["aa"])],
        fields: Some(vec![
            m_field("b", "B", vec![m_word("pointer")]),
            m_field("cs", "C", vec![m_values("one_many", &["id", "owner"]), m_values("cascade", &["insert", "delete"]), m_values("fetch", &["eager"])]),
        ]),
    };
    let b = StructItem { name: "B".to_string(), attrs: vec![], fields: Some(vec![]) };
    let c = StructItem { name: "C".to_string(), attrs: vec![], fields: Some(vec![]) };
    let orm = visit_krate_checked(&vec![a, b, c]).unwrap();
    let am = orm.get_entity("A").unwrap();
    assert_eq!(am.field_vec, vec!["id".to_string(), "b".to_string(), "cs".to_string(), "b_id".to_string()]);
    let cm = orm.get_entity("C").unwrap();
    assert_eq!(cm.field_vec, vec!["id".to_string(), "owner".to_string()]);
    match am.get_field("cs").unwrap() {
        FieldMeta::OneToMany { left, right, cascades, fetch, .. } => {
            assert_eq!(left, "id");
            assert_eq!(right, "owner");
            assert_eq!(cascades, &vec![Cascade::Insert, Cascade::Delete]);
            assert_eq!(*fetch, Fetch::Eager);
        },
        other => panic!("{:?}", other),
    }
    assert_eq!(am.get_refer_fields().len(), 0);
    assert_eq!(am.get_one_many_fields().len(), 1);
    assert_eq!(am.get_pointer_fields().len(), 1);
    assert_eq!(am.get_columns(), vec!["b_id".to_string()]);
}

#[test]
fn unreadable_declarations_refused() {
    let bad_len = StructItem {
        name: "P".to_string(),
        attrs: vec![],
        fields: Some(vec![m_field("name", "String", vec![m_values("len", &["big"])])]),
    };
    assert!(!struct_checked(&bad_len));
    assert!(visit_krate_checked(&vec![bad_len]).is_none());
    let unknown = StructItem {
        name: "Q".to_string(),
        attrs: vec![],
        fields: Some(vec![m_field("r", "R", vec![m_word("pointer")])]),
    };
    assert!(struct_checked(&unknown));
    assert!(visit_krate_checked(&vec![unknown]).is_none());
    assert!(!field_checked(&m_field("x", "X", vec![m_values("cascade", &["sideways"])])));
    assert!(field_checked(&m_field("id", "u64", vec![m_values("auto", &["true"])])));
    assert!(!field_checked(&m_field("id", "u64", vec![m_values("auto", &["yes"])])));
}

#[test]
fn attribute_trees() {
    let item = MetaItem {
        name: "len".to_string(),
        node: MetaItemKind::NameValue(LitKind::Int(32)),
    };
    let a = visit_meta(&item);
    assert_eq!(a.name, "len");
    assert_eq!(a.values.as_ref().unwrap()[0].name, "32");
    let all = visit_attrs(&vec![item, m_values("cascade", &["insert", "update"])]);
    assert!(all.has("cascade"));
    assert_eq!(all.get("len"), Some("32"));
    assert_eq!(all.get_values("cascade"), vec!["insert".to_string(), "update".to_string()]);
    assert!(all.get_attr("missing").is_none());
    assert_eq!(Attr::new("x".to_string()).name, "x");
}

#[test]
fn generated_module_embeds_json() {
    let orm = person_meta();
    assert!(orm.entities_ready());
    let src = format_meta(&orm, "{}");
    assert!(src.contains("let json = r#\"{}\"#;"));
    assert!(src.contains("pub struct Person {"));
    assert!(!src.contains("${"));
}

#[test]
fn default_entity_fields() {
    let orm = visit_krate(&vec![
        StructItem {
            name: "A".to_string(),
            attrs: vec![],
            fields: Some(vec![m_field("b", "B", vec![m_word("one_one")]), m_field("cs", "B", vec![m_word("one_many")])]),
        },
        StructItem { name: "B".to_string(), attrs: vec![], fields: Some(vec![]) },
    ]);
    let meta = orm.get_entity("A").unwrap();
    let e = EntityInner::default(meta);
    assert!(matches!(e.get("id"), Some(FieldValue::Value(Value::NULL))));
    assert!(matches!(e.get("b"), Some(FieldValue::Entity(None))));
    assert!(matches!(e.get("cs"), Some(FieldValue::Vec(v)) if v.is_empty()));
    let mut store = EntityStore::new();
    let a = store.add(e);
    assert_eq!(store.len(), 1);
    assert_eq!(store.get(a).entity, "A");
}

#[test]
fn entity_meta_default_is_empty() {
    let m = EntityMeta::default();
    assert!(m.field_vec.is_empty() && m.entity_name.is_empty());
    let o = OrmMeta::default();
    assert!(o.entity_vec.is_empty());
}

#[test]
fn tables_hold_each_name_once() {
    let a = StructItem {
        name: "A".to_string(),
        attrs: vec![],
        fields: Some(vec![
            m_field("n", "i32", vec![]),
            m_field("b", "B", vec![m_word("pointer")]),
        ]),
    };
    let b = StructItem { name: "B".to_string(), attrs: vec![], fields: Some(vec![m_field("n", "i64", vec![])]) };
    let orm = visit_krate_checked(&vec![a, b]).unwrap();
    let mut names: Vec<&String> = orm.entity_map.iter().map(|p| &p.0).collect();
    names.sort();
    names.dedup();
    assert_eq!(names.len(), orm.entity_map.len());
    for (_, e) in orm.entity_map.iter() {
        let mut keys: Vec<String> = e.field_map.iter().map(|p| p.0.clone()).collect();
        keys.sort();
        let before = keys.len();
        keys.dedup();
        assert_eq!(keys.len(), before);
        let mut declared = e.field_vec.clone();
        declared.sort();
        declared.dedup();
        assert_eq!(declared, keys);
    }
}
