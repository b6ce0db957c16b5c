use orm::anno::{visit_struct_field_attr, Annotation};
use orm::attr::{LitKind, MetaItem, MetaItemKind, NestedMetaItem};
use orm::text::{bool_to_string, join, parse_bool, parse_u64, replace, u64_to_string};
use orm::types::{attach_db_type, attach_type};
use orm::value::{FieldValue, Value};

#[test]
fn decimal_round_trip() {
    for n in [0u64, 7, 10, 128, 4096, u64::MAX].iter() {
        assert_eq!(parse_u64(&u64_to_string(*n)), Some(*n));
    }
    assert_eq!(u64_to_string(305), "305");
}

#[test]
fn parse_u64_accepts_what_std_accepts() {
    for s in ["0", "+12", "18446744073709551615", "18446744073709551616", "", "+", "-1", "1a", " 1"].iter() {
        assert_eq!(parse_u64(s), s.parse::<u64>().ok(), "{}", s);
    }
}

#[test]
fn parse_bool_accepts_what_std_accepts() {
    for s in ["true", "false", "True", "", "1"].iter() {
        assert_eq!(parse_bool(s), s.parse::<bool>().ok());
    }
    assert_eq!(bool_to_string(true), "true");
    assert_eq!(bool_to_string(false), "false");
}

#[test]
fn replace_every_occurrence() {
    assert_eq!(replace("a${X}b${X}", "${X}", "--"), "a--b--");
    assert_eq!(replace("aaa", "aa", "b"), "ba");
    assert_eq!(replace("no match", "${X}", "y"), "no match");
    assert_eq!(replace("a${X}b", "${X}", "${X}${X}"), "a${X}${X}b");
}

#[test]
fn join_with_separator() {
    let parts = vec!["a".to_string(), "b".to_string(), "c".to_string()];
    assert_eq!(join(&parts, ", "), "a, b, c");
    assert_eq!(join(&Vec::new(), ", "), "");
}

#[test]
fn attach_type_reads_option() {
    assert_eq!(attach_type("Option<i32>"), Some(("i32".to_string(), true)));
    assert_eq!(attach_type("String"), Some(("String".to_string(), false)));
    assert_eq!(attach_type("Vec<u8>"), None);
    assert_eq!(attach_type("Option<Vec<u8>>"), None);
}

#[test]
fn attach_db_type_columns() {
    assert_eq!(attach_db_type("i32", 0, false), "INTEGER NOT NULL");
    assert_eq!(attach_db_type("i64", 0, true), "BIGINT");
    assert_eq!(attach_db_type("String", 32, false), "VARCHAR(32) NOT NULL");
}

#[test]
fn field_annotations() {
    let len = MetaItem {
        name: "len".to_string(),
        node: MetaItemKind::List(vec![NestedMetaItem::Literal(LitKind::Int(16))]),
    };
    assert!(matches!(visit_struct_field_attr(&len), Annotation::Len(16)));
    let id = MetaItem {
        name: "id".to_string(),
        node: MetaItemKind::List(vec![NestedMetaItem::MetaItem(MetaItem { name: "auto".to_string(), node: MetaItemKind::Word })]),
    };
    assert!(matches!(visit_struct_field_attr(&id), Annotation::Id(true)));
    let pointer = MetaItem { name: "pointer".to_string(), node: MetaItemKind::Word };
    assert!(matches!(visit_struct_field_attr(&pointer), Annotation::Pointer));
}

#[test]
fn field_values() {
    let v = FieldValue::Value(Value::UInt(5));
    assert!(v.is_value() && !v.is_entity() && !v.is_vec());
    assert!(matches!(v.as_value(), Value::UInt(5)));
    let mut l = FieldValue::Vec(Vec::new());
    l.push_entity(3);
    assert_eq!(l.as_vec(), vec![3]);
    assert!(matches!(FieldValue::null(), FieldValue::Value(Value::NULL)));
    assert_eq!(Value::Int(-1).as_u64(), None);
    assert_eq!(Value::Int(9).as_u64(), Some(9));
    assert!(Value::NULL.is_null());
}
