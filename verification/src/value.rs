//! Values of columns, and what an entity holds in each of its fields.
use vstd::prelude::*;

use crate::meta::{FieldMeta, FieldMetaView, ReferKind};

verus! {

/// A value stored in or read from a column.
#[derive(Debug)]
pub enum Value {
    NULL,
    Text(String),
    Int(i64),
    UInt(u64),
}

impl Clone for Value {
    fn clone(&self) -> (r: Self)
        ensures
            r == *self,
    {
        match self {
            Value::NULL => Value::NULL,
            Value::Text(s) => Value::Text(s.clone()),
            Value::Int(v) => Value::Int(*v),
            Value::UInt(v) => Value::UInt(*v),
        }
    }
}

impl Value {
    /// A copy of the value.
    pub fn duplicate(&self) -> (r: Self)
        ensures
            r == *self,
    {
        self.clone()
    }

    pub fn is_null(&self) -> (r: bool)
        ensures
            r == (*self is NULL),
    {
        match self {
            Value::NULL => true,
            _ => false,
        }
    }

    /// The value as an unsigned integer, where it is one.
    pub open spec fn as_u64_spec(self) -> Option<u64> {
        match self {
            Value::UInt(v) => Some(v),
            Value::Int(v) => if v >= 0 {
                Some(v as u64)
            } else {
                None
            },
            _ => None,
        }
    }

    pub fn as_u64(&self) -> (r: Option<u64>)
        ensures
            r == self.as_u64_spec(),
    {
        match self {
            Value::UInt(v) => Some(*v),
            Value::Int(v) => if *v >= 0 {
                Some(*v as u64)
            } else {
                None
            },
            _ => None,
        }
    }
}

/// Index of an entity in an entity store.
pub type EntityId = usize;

/// What an entity holds in one field: a column value, the entity that a single
/// relation points to, or the entities of a one-to-many relation.
#[derive(Debug)]
pub enum FieldValue {
    Value(Value),
    Entity(Option<EntityId>),
    Vec(Vec<EntityId>),
}

/// The mathematical value of a `FieldValue`.
pub enum FieldValueView {
    Value(Value),
    Entity(Option<EntityId>),
    Vec(Seq<EntityId>),
}

impl View for FieldValue {
    type V = FieldValueView;

    open spec fn view(&self) -> FieldValueView {
        match self {
            FieldValue::Value(v) => FieldValueView::Value(*v),
            FieldValue::Entity(e) => FieldValueView::Entity(*e),
            FieldValue::Vec(v) => FieldValueView::Vec(v@),
        }
    }
}

/// What a field of a new entity holds before anything is set.
pub open spec fn default_value(f: FieldMetaView) -> FieldValueView {
    match f {
        FieldMetaView::Relation { kind, .. } => if kind == ReferKind::OneToMany {
            FieldValueView::Vec(Seq::empty())
        } else {
            FieldValueView::Entity(None)
        },
        _ => FieldValueView::Value(Value::NULL),
    }
}

impl FieldValue {
    pub fn default(meta: &FieldMeta) -> (r: Self)
        ensures
            r@ == default_value(meta@),
    {
        match meta {
            FieldMeta::Id { .. } | FieldMeta::Integer { .. } | FieldMeta::String { .. } =>
                FieldValue::Value(Value::NULL),
            FieldMeta::Refer { .. } | FieldMeta::Pointer { .. } | FieldMeta::OneToOne { .. } =>
                FieldValue::Entity(None),
            FieldMeta::OneToMany { .. } => FieldValue::Vec(Vec::new()),
        }
    }

    pub fn duplicate(&self) -> (r: Self)
        ensures
            r@ == self@,
    {
        match self {
            FieldValue::Value(v) => FieldValue::Value(v.clone()),
            FieldValue::Entity(e) => FieldValue::Entity(*e),
            FieldValue::Vec(v) => FieldValue::Vec(v.clone()),
        }
    }

    pub fn is_value(&self) -> (r: bool)
        ensures
            r == (self@ is Value),
    {
        match self {
            FieldValue::Value(_) => true,
            _ => false,
        }
    }

    pub fn is_entity(&self) -> (r: bool)
        ensures
            r == (self@ is Entity),
    {
        match self {
            FieldValue::Entity(_) => true,
            _ => false,
        }
    }

    pub fn is_vec(&self) -> (r: bool)
        ensures
            r == (self@ is Vec),
    {
        match self {
            FieldValue::Vec(_) => true,
            _ => false,
        }
    }

    pub fn as_value(&self) -> (r: Value)
        requires
            self@ is Value,
        ensures
            self@ == FieldValueView::Value(r),
    {
        match self {
            FieldValue::Value(v) => v.clone(),
            _ => vstd::pervasive::unreached(),
        }
    }

    pub fn as_entity(&self) -> (r: Option<EntityId>)
        requires
            self@ is Entity,
        ensures
            self@ == FieldValueView::Entity(r),
    {
        match self {
            FieldValue::Entity(e) => *e,
            _ => vstd::pervasive::unreached(),
        }
    }

    pub fn as_vec(&self) -> (r: Vec<EntityId>)
        requires
            self@ is Vec,
        ensures
            self@ == FieldValueView::Vec(r@),
    {
        match self {
            FieldValue::Vec(v) => v.clone(),
            _ => vstd::pervasive::unreached(),
        }
    }

    /// Appends an entity to a one-to-many value.
    pub fn push_entity(&mut self, e: EntityId)
        requires
            old(self)@ is Vec,
        ensures
            final(self)@ == FieldValueView::Vec(old(self)@->Vec_0.push(e)),
    {
        match self {
            FieldValue::Vec(v) => v.push(e),
            _ => {},
        }
    }

    /// The NULL column value.
    pub fn null() -> (r: Self)
        ensures
            r@ == FieldValueView::Value(Value::NULL),
    {
        FieldValue::Value(Value::NULL)
    }
}

impl FieldValue {
    /// The list of a one-to-many value, to change in place.
    pub fn as_vec_mut(&mut self) -> (r: &mut Vec<EntityId>)
        requires
            old(self)@ is Vec,
        ensures
            old(self)@ == FieldValueView::Vec(r@),
            final(self)@ == FieldValueView::Vec(final(r)@),
    {
        match self {
            FieldValue::Vec(v) => v,
            _ => vstd::pervasive::unreached(),
        }
    }
}

/// The value of a key or integer field as an unsigned integer: the integer
/// itself, or the number its text denotes.
pub open spec fn json_number(v: Value) -> Option<u64> {
    match v {
        Value::Text(s) => crate::text::parse_u64_spec(s@),
        _ => v.as_u64_spec(),
    }
}

/// A column value that `to_json` can write for a field of this kind: a number
/// for a key or integer field, text for a string field.
pub open spec fn json_writable(v: Value, f: FieldMetaView) -> bool {
    v is NULL || match f {
        FieldMetaView::Id { .. } | FieldMetaView::Integer { .. } => json_number(v) is Some,
        FieldMetaView::String { .. } => v is Text,
        FieldMetaView::Relation { .. } => false,
    }
}

/// What `to_json` writes for a column value.
pub open spec fn json_text(v: Value, f: FieldMetaView) -> Seq<char> {
    if v is NULL {
        "NULL"@
    } else {
        match f {
            FieldMetaView::String { .. } => "\""@ + v->Text_0@ + "\""@,
            _ => crate::text::decimal(json_number(v)->Some_0 as nat),
        }
    }
}

impl FieldValue {
    /// The column value as JSON text: `NULL`, a number for a key or integer
    /// field, a quoted text for a string field.
    pub fn to_json(&self, meta: &FieldMeta) -> (r: String)
        requires
            self@ matches FieldValueView::Value(v) && json_writable(v, meta@),
        ensures
            r@ == json_text(self@->Value_0, meta@),
    {
        let v = self.as_value();
        if v.is_null() {
            return crate::text::owned("NULL");
        }
        match meta {
            FieldMeta::String { .. } => match &v {
                Value::Text(s) => {
                    let mut r = crate::text::concat2("\"", s.as_str());
                    r.append("\"");
                    r
                },
                _ => vstd::pervasive::unreached(),
            },
            _ => {
                let n = match &v {
                    Value::Text(s) => crate::text::parse_u64(s.as_str()),
                    _ => v.as_u64(),
                };
                match n {
                    Some(n) => crate::text::u64_to_string(n),
                    None => vstd::pervasive::unreached(),
                }
            },
        }
    }
}

} // verus!
