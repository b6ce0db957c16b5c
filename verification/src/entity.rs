//! Entities in memory: what each holds in its fields, and the statements that
//! store, update and delete one.
//!
//! Entities live in an `EntityStore` and refer to each other by their index in
//! it, so that relations may form any graph, cycles included.
use vstd::prelude::*;

use crate::assoc::{entry_get, get, index_of, map_get, map_put, names_of, put};
use crate::meta::{Cascade, EntityMeta, EntityMetaView, FieldMeta, FieldMetaView, OrmMeta, ReferKind};
use crate::cond::param_views;
use crate::text::{concat2, owned};
use crate::value::{default_value, EntityId, FieldValue, FieldValueView, Value};

verus! {

/// One entity: the name of its type, and the value of each field that is set.
#[derive(Debug)]
pub struct EntityInner {
    pub entity: String,
    pub field_map: Vec<(String, FieldValue)>,
    pub cascade: Option<Cascade>,
}

pub struct EntityInnerView {
    pub entity: Seq<char>,
    pub fields: Seq<(Seq<char>, FieldValueView)>,
    pub cascade: Option<Cascade>,
}

pub open spec fn value_entry_views(m: Seq<(String, FieldValue)>) -> Seq<(Seq<char>, FieldValueView)> {
    m.map_values(|p: (String, FieldValue)| (p.0@, p.1@))
}

impl View for EntityInner {
    type V = EntityInnerView;

    open spec fn view(&self) -> EntityInnerView {
        EntityInnerView {
            entity: self.entity@,
            fields: value_entry_views(self.field_map@),
            cascade: self.cascade,
        }
    }
}

impl EntityInnerView {
    /// The value held in the field `name`, if it is set.
    pub open spec fn get(self, name: Seq<char>) -> Option<FieldValueView> {
        map_get(self.fields, name)
    }

    /// The entity with the field `name` set to `v`.
    pub open spec fn set(self, name: Seq<char>, v: FieldValueView) -> EntityInnerView {
        EntityInnerView { fields: map_put(self.fields, name, v), ..self }
    }

    /// The column value of the field `name`; NULL when the field is not set.
    pub open spec fn value_or_null(self, name: Seq<char>) -> Value {
        match self.get(name) {
            Some(FieldValueView::Value(v)) => v,
            _ => Value::NULL,
        }
    }

    /// Every set field among `names` holds a column value.
    pub open spec fn values_plain(self, names: Seq<Seq<char>>) -> bool {
        forall|i: int| 0 <= i < names.len() ==> (self.get(#[trigger] names[i]) matches Some(v) ==> v is Value)
    }
}

/// The values a new entity of `meta` starts with: each field at its default.
pub open spec fn default_fields(meta: EntityMetaView, n: int) -> Seq<(Seq<char>, FieldValueView)>
    decreases n,
{
    if n <= 0 || n > meta.field_vec.len() {
        Seq::empty()
    } else {
        let name = meta.field_vec[n - 1];
        map_put(default_fields(meta, n - 1), name, default_value(meta.field(name)->Some_0))
    }
}

proof fn lemma_value_keys(m: Seq<(String, FieldValue)>)
    ensures
        crate::assoc::keys_of(value_entry_views(m)) == names_of(m),
{
    assert(crate::assoc::keys_of(value_entry_views(m)) =~= names_of(m));
}

impl EntityInner {
    /// An entity of `meta` with no field set.
    pub fn new(meta: &EntityMeta) -> (r: EntityInner)
        ensures
            r@.entity == meta@.entity_name,
            r@.fields.len() == 0,
            r@.cascade is None,
    {
        EntityInner { entity: meta.entity_name.clone(), field_map: Vec::new(), cascade: None }
    }

    /// An entity of `meta` with every field at its default: NULL for columns,
    /// no entity for single relations, no entities for one-to-many relations.
    pub fn default(meta: &EntityMeta) -> (r: EntityInner)
        requires
            meta@.fields_known(),
        ensures
            r@.entity == meta@.entity_name,
            r@.fields == default_fields(meta@, meta@.field_vec.len() as int),
            r@.cascade is None,
    {
        let mut r = EntityInner::new(meta);
        assert(r@.fields =~= default_fields(meta@, 0));
        let mut i: usize = 0;
        while i < meta.field_vec.len()
            invariant
                i <= meta.field_vec@.len(),
                meta@.fields_known(),
                r@.entity == meta@.entity_name,
                r@.cascade is None,
                r@.fields == default_fields(meta@, i as int),
            decreases meta.field_vec.len() - i,
        {
            let name = meta.field_vec[i].as_str();
            assert(meta@.field_vec[i as int] == name@);
            assert(meta@.field(meta@.field_vec[i as int]) is Some);
            let field_meta = match meta.get_field(name) {
                Some(f) => f,
                None => vstd::pervasive::unreached(),
            };
            r.set(name, FieldValue::default(field_meta));
            i += 1;
        }
        r
    }

    /// Sets the field `name` to `v`.
    pub fn set(&mut self, name: &str, v: FieldValue)
        ensures
            final(self)@ == old(self)@.set(name@, v@),
    {
        proof {
            lemma_value_keys(self.field_map@);
            crate::assoc::lemma_index_of(names_of(self.field_map@), name@);
        }
        let ghost old_map = self.field_map@;
        let ghost vv = v@;
        put(&mut self.field_map, owned(name), v);
        proof {
            let i = index_of(names_of(old_map), name@);
            if i < 0 {
                assert(value_entry_views(self.field_map@) =~= value_entry_views(old_map).push((name@, vv)));
            } else {
                assert(value_entry_views(self.field_map@) =~= value_entry_views(old_map).update(i, (name@, vv)));
            }
        }
    }

    /// The value held in the field `name`, if it is set.
    pub fn get(&self, name: &str) -> (r: Option<&FieldValue>)
        ensures
            r matches Some(v) ==> self@.get(name@) == Some(v@),
            r is None ==> self@.get(name@) is None,
    {
        proof {
            lemma_value_keys(self.field_map@);
            crate::assoc::lemma_index_of(names_of(self.field_map@), name@);
        }
        get(&self.field_map, name)
    }

    /// The key; NULL when it is not set.
    pub fn get_id_value(&self) -> (r: Value)
        requires
            self@.get("id"@) matches Some(v) ==> v is Value,
        ensures
            r == self@.value_or_null("id"@),
    {
        match self.get("id") {
            Some(v) => v.as_value(),
            None => Value::NULL,
        }
    }

    /// The column value of the field `field`; NULL when it is not set or holds
    /// a relation.
    pub fn value_or_null(&self, field: &str) -> (r: Value)
        ensures
            r == self@.value_or_null(field@),
    {
        match self.get(field) {
            Some(FieldValue::Value(v)) => v.duplicate(),
            _ => Value::NULL,
        }
    }

    /// The column value of the field `field`.
    pub fn get_value(&self, field: &str) -> (r: Value)
        requires
            self@.get(field@) matches Some(v) && v is Value,
        ensures
            self@.get(field@) == Some(FieldValueView::Value(r)),
    {
        match self.get(field) {
            Some(v) => v.as_value(),
            None => vstd::pervasive::unreached(),
        }
    }

    pub fn set_value(&mut self, field: &str, value: Value)
        ensures
            final(self)@ == old(self)@.set(field@, FieldValueView::Value(value)),
    {
        self.set(field, FieldValue::Value(value))
    }

    pub fn set_value_null(&mut self, field: &str)
        ensures
            final(self)@ == old(self)@.set(field@, FieldValueView::Value(Value::NULL)),
    {
        self.set(field, FieldValue::null())
    }

    /// Whether the field holds NULL; a field that is not set does not.
    pub fn is_value_null(&self, field: &str) -> (r: bool)
        requires
            self@.get(field@) matches Some(v) ==> v is Value,
        ensures
            r == (self@.get(field@) == Some(FieldValueView::Value(Value::NULL))),
    {
        match self.get(field) {
            Some(v) => v.as_value().is_null(),
            None => false,
        }
    }

    /// The entity that the single relation `field` holds.
    pub fn get_entity(&self, field: &str) -> (r: Option<EntityId>)
        requires
            self@.get(field@) matches Some(v) && v is Entity,
        ensures
            self@.get(field@) == Some(FieldValueView::Entity(r)),
    {
        match self.get(field) {
            Some(v) => v.as_entity(),
            None => vstd::pervasive::unreached(),
        }
    }

    /// The column values of the plain fields of `meta`, in field order; NULL
    /// for a field that is not set.
    pub fn get_values(&self, meta: &EntityMeta) -> (r: Vec<Value>)
        requires
            meta@.fields_known(),
            self@.values_plain(meta@.normal_fields().map_values(|f: FieldMetaView| f.field_name())),
        ensures
            r@ == meta@.normal_fields().map_values(|f: FieldMetaView| self@.value_or_null(f.field_name())),
    {
        let params = self.get_params(meta);
        let mut r: Vec<Value> = Vec::new();
        let mut i: usize = 0;
        while i < params.len()
            invariant
                i <= params@.len(),
                params@.len() == meta@.normal_fields().len(),
                forall|j: int| 0 <= j < params@.len() ==> #[trigger] params@[j].1 == self@.value_or_null(
                    meta@.normal_fields()[j].field_name(),
                ),
                r@.len() == i,
                forall|j: int| 0 <= j < i ==> #[trigger] r@[j] == params@[j].1,
            decreases params.len() - i,
        {
            r.push(params[i].1.clone());
            i += 1;
        }
        assert(r@ =~= meta@.normal_fields().map_values(|f: FieldMetaView| self@.value_or_null(f.field_name())));
        r
    }

    /// The named parameters of the plain fields of `meta`: each column with the
    /// field's value, NULL for a field that is not set.
    pub fn get_params(&self, meta: &EntityMeta) -> (r: Vec<(String, Value)>)
        requires
            meta@.fields_known(),
            self@.values_plain(meta@.normal_fields().map_values(|f: FieldMetaView| f.field_name())),
        ensures
            r@.len() == meta@.normal_fields().len(),
            forall|j: int|
                0 <= j < r@.len() ==> {
                    let f = #[trigger] meta@.normal_fields()[j];
                    &&& r@[j].0@ == f.column_name()
                    &&& r@[j].1 == self@.value_or_null(f.field_name())
                },
    {
        let fields = meta.get_normal_fields();
        let ghost fs = meta@.normal_fields();
        let ghost names = fs.map_values(|f: FieldMetaView| f.field_name());
        proof {
            crate::meta::lemma_select_holds(meta@.fields(), crate::meta::FieldSel::Normal);
        }
        let mut r: Vec<(String, Value)> = Vec::new();
        let mut i: usize = 0;
        while i < fields.len()
            invariant
                i <= fields@.len(),
                fs == crate::meta::ref_views(fields@),
                fs == meta@.normal_fields(),
                names == fs.map_values(|f: FieldMetaView| f.field_name()),
                self@.values_plain(names),
                forall|j: int| 0 <= j < fs.len() ==> (#[trigger] fs[j]).is_normal(),
                r@.len() == i,
                forall|j: int|
                    0 <= j < i ==> {
                        let f = #[trigger] fs[j];
                        &&& r@[j].0@ == f.column_name()
                        &&& r@[j].1 == self@.value_or_null(f.field_name())
                    },
            decreases fields.len() - i,
        {
            let f = fields[i];
            assert(fs[i as int] == f@);
            let name = f.get_field_name();
            assert(names[i as int] == name@);
            let value = match self.get(name.as_str()) {
                Some(v) => v.as_value(),
                None => Value::NULL,
            };
            r.push((f.get_column_name(), value));
            i += 1;
        }
        r
    }

    /// Records the key that the database assigned.
    pub fn set_id(&mut self, id: u64)
        ensures
            final(self)@ == old(self)@.set("id"@, FieldValueView::Value(Value::UInt(id))),
    {
        self.set("id", FieldValue::Value(Value::UInt(id)))
    }
}

/// A statement with its named parameters.
#[derive(Debug)]
pub struct Statement {
    pub sql: String,
    pub params: Vec<(String, Value)>,
}

pub struct StatementView {
    pub sql: Seq<char>,
    pub params: Seq<(Seq<char>, Value)>,
}

impl View for Statement {
    type V = StatementView;

    open spec fn view(&self) -> StatementView {
        StatementView { sql: self.sql@, params: param_views(self.params@) }
    }
}

impl EntityInner {
    /// The `INSERT` of the entity's plain fields (their columns and values).
    pub fn insert_statement(&self, meta: &EntityMeta) -> (r: Statement)
        requires
            meta@.fields_known(),
            self@.values_plain(meta@.normal_fields().map_values(|f: FieldMetaView| f.field_name())),
        ensures
            r.sql@ == meta@.insert_sql(),
            r.params@.len() == meta@.normal_fields().len(),
            forall|j: int|
                0 <= j < r.params@.len() ==> {
                    let f = #[trigger] meta@.normal_fields()[j];
                    &&& r.params@[j].0@ == f.column_name()
                    &&& r.params@[j].1 == self@.value_or_null(f.field_name())
                },
    {
        Statement { sql: meta.sql_insert(), params: self.get_params(meta) }
    }

    /// The `UPDATE` of the entity's plain fields, keyed by its `id`.
    pub fn update_statement(&self, meta: &EntityMeta) -> (r: Statement)
        requires
            meta@.fields_known(),
            self@.values_plain(meta@.normal_fields().map_values(|f: FieldMetaView| f.field_name())),
            self@.get("id"@) matches Some(v) ==> v is Value,
        ensures
            r.sql@ == meta@.update_sql(),
            r.params@.len() == meta@.normal_fields().len() + 1,
            r.params@[0].0@ == "id"@,
            r.params@[0].1 == self@.value_or_null("id"@),
            forall|j: int|
                1 <= j < r.params@.len() ==> {
                    let f = #[trigger] meta@.normal_fields()[j - 1];
                    &&& r.params@[j].0@ == f.column_name()
                    &&& r.params@[j].1 == self@.value_or_null(f.field_name())
                },
    {
        let mut params = self.get_params(meta);
        let id = self.get_id_value();
        params.insert(0, (owned("id"), id));
        Statement { sql: meta.sql_update(), params: params }
    }

    /// The `DELETE` of the entity, keyed by its `id`.
    pub fn delete_statement(&self, meta: &EntityMeta) -> (r: Statement)
        requires
            self@.get("id"@) matches Some(v) ==> v is Value,
        ensures
            r.sql@ == meta@.delete_sql(),
            r.params@.len() == 1,
            r.params@[0].0@ == "id"@,
            r.params@[0].1 == self@.value_or_null("id"@),
    {
        let id = self.get_id_value();
        let mut params: Vec<(String, Value)> = Vec::new();
        params.push((owned("id"), id));
        Statement { sql: meta.sql_delete(), params: params }
    }
}

/// All entities in memory; an entity is known by its index.
#[derive(Debug)]
pub struct EntityStore {
    pub entities: Vec<EntityInner>,
}

pub open spec fn store_views(s: Seq<EntityInner>) -> Seq<EntityInnerView> {
    s.map_values(|e: EntityInner| e@)
}

impl View for EntityStore {
    type V = Seq<EntityInnerView>;

    open spec fn view(&self) -> Seq<EntityInnerView> {
        store_views(self.entities@)
    }
}

/// The store with the field `name` of entity `id` set to `v`.
pub open spec fn store_set(s: Seq<EntityInnerView>, id: int, name: Seq<char>, v: FieldValueView) -> Seq<EntityInnerView> {
    s.update(id, s[id].set(name, v))
}

/// The entity on the other end of a single relation, and the one it held before.
pub open spec fn relation_of(orm: crate::meta::OrmMetaView, e: EntityInnerView, field: Seq<char>) -> FieldMetaView {
    orm.entity(e.entity)->Some_0.field(field)->Some_0
}

/// What setting the single relation `field` of entity `a` to `opt` does.
/// A pointer's key field takes the key of the entity it now holds, or NULL
/// when it is cleared. A one-to-one relation clears the key field of the
/// entity it held before, then gives the entity it now holds this entity's
/// key; this entity's own fields other than the relation stay as they are.
pub open spec fn set_entity_spec(
    orm: crate::meta::OrmMetaView,
    s: Seq<EntityInnerView>,
    a: int,
    field: Seq<char>,
    opt: Option<EntityId>,
) -> Seq<EntityInnerView> {
    let f = relation_of(orm, s[a], field);
    let s1 = match f {
        FieldMetaView::Relation { kind: ReferKind::Pointer, left, right, .. } => match opt {
            None => store_set(s, a, left, FieldValueView::Value(Value::NULL)),
            Some(b) => store_set(s, a, left, FieldValueView::Value(s[b as int].value_or_null(right))),
        },
        FieldMetaView::Relation { kind: ReferKind::OneToOne, left, right, .. } => {
            let old_b = s[a].get(field)->Some_0->Entity_0;
            let s2 = match old_b {
                Some(ob) => store_set(s, ob as int, right, FieldValueView::Value(Value::NULL)),
                None => s,
            };
            match opt {
                Some(b) => store_set(s2, b as int, right, FieldValueView::Value(s[a].value_or_null(left))),
                None => s2,
            }
        },
        _ => s,
    };
    store_set(s1, a, field, FieldValueView::Entity(opt))
}

/// Setting a single relation can be done: the field is a single relation of the
/// entity's type, the entities involved are in the store and differ from `a`,
/// and the key fields read hold column values.
pub open spec fn set_entity_ok(
    orm: crate::meta::OrmMetaView,
    s: Seq<EntityInnerView>,
    a: int,
    field: Seq<char>,
    opt: Option<EntityId>,
) -> bool {
    &&& 0 <= a < s.len()
    &&& orm.entity(s[a].entity) matches Some(m)
    &&& m.field(field) matches Some(f)
    &&& (f.is_kind(ReferKind::Refer) || f.is_kind(ReferKind::Pointer) || f.is_kind(ReferKind::OneToOne))
    &&& opt matches Some(b) ==> b < s.len()
    &&& f.is_kind(ReferKind::OneToOne) ==> {
        &&& s[a].get(field) matches Some(v) && v is Entity
        &&& s[a].get(field)->Some_0->Entity_0 matches Some(ob) ==> ob < s.len() && ob != a
        &&& opt matches Some(b) ==> b != a
    }
}

impl EntityStore {
    pub fn new() -> (r: Self)
        ensures
            r@.len() == 0,
    {
        let r = EntityStore { entities: Vec::new() };
        assert(r@ =~= Seq::<EntityInnerView>::empty());
        r
    }

    /// Adds an entity; its index is returned.
    pub fn add(&mut self, e: EntityInner) -> (r: EntityId)
        ensures
            r == old(self)@.len(),
            final(self)@ == old(self)@.push(e@),
    {
        let ghost before = self.entities@;
        let r = self.entities.len();
        self.entities.push(e);
        assert(self@ =~= store_views(before).push(e@));
        r
    }

    pub fn len(&self) -> (r: usize)
        ensures
            r == self@.len(),
    {
        self.entities.len()
    }

    pub fn get(&self, id: EntityId) -> (r: &EntityInner)
        requires
            id < self@.len(),
        ensures
            r@ == self@[id as int],
    {
        &self.entities[id]
    }

    /// Sets the field `name` of entity `id` to `v`.
    pub fn set_field(&mut self, id: EntityId, name: &str, v: FieldValue)
        requires
            id < old(self)@.len(),
        ensures
            final(self)@ == store_set(old(self)@, id as int, name@, v@),
    {
        let ghost before = self.entities@;
        let mut e = self.entities.remove(id);
        e.set(name, v);
        self.entities.insert(id, e);
        assert(self@ =~= store_set(store_views(before), id as int, name@, v@));
    }

    /// Sets the single relation `field` of entity `a` to `opt`, keeping the key
    /// fields of the entities involved in step.
    pub fn set_entity(&mut self, orm: &OrmMeta, a: EntityId, field: &str, opt: Option<EntityId>)
        requires
            set_entity_ok(orm@, old(self)@, a as int, field@, opt),
        ensures
            final(self)@ == set_entity_spec(orm@, old(self)@, a as int, field@, opt),
    {
        let meta = match orm.get_entity(self.entities[a].entity.as_str()) {
            Some(m) => m,
            None => vstd::pervasive::unreached(),
        };
        let field_meta = match meta.get_field(field) {
            Some(f) => f,
            None => vstd::pervasive::unreached(),
        };
        match field_meta {
            FieldMeta::Refer { .. } => {},
            FieldMeta::Pointer { .. } => self.set_entity_pointer(field_meta, a, opt),
            FieldMeta::OneToOne { .. } => self.set_entity_one_one(field_meta, a, field, opt),
            _ => vstd::pervasive::unreached(),
        }
        self.set_field(a, field, FieldValue::Entity(opt));
    }

    fn set_entity_pointer(&mut self, field_meta: &FieldMeta, a: EntityId, opt: Option<EntityId>)
        requires
            field_meta@.is_kind(ReferKind::Pointer),
            a < old(self)@.len(),
            opt matches Some(b) ==> b < old(self)@.len(),
        ensures
            final(self)@ == match opt {
                None => store_set(old(self)@, a as int, field_meta@.refer_left(), FieldValueView::Value(Value::NULL)),
                Some(b) => store_set(
                    old(self)@,
                    a as int,
                    field_meta@.refer_left(),
                    FieldValueView::Value(old(self)@[b as int].value_or_null(field_meta@.refer_right())),
                ),
            },
    {
        let left = field_meta.get_refer_left();
        let right = field_meta.get_refer_right();
        let key = match opt {
            None => Value::NULL,
            Some(b) => self.entities[b].value_or_null(right.as_str()),
        };
        self.set_field(a, left.as_str(), FieldValue::Value(key));
    }

    fn set_entity_one_one(&mut self, field_meta: &FieldMeta, a: EntityId, field: &str, opt: Option<EntityId>)
        requires
            field_meta@.is_kind(ReferKind::OneToOne),
            a < old(self)@.len(),
            old(self)@[a as int].get(field@) matches Some(v) && v is Entity,
            old(self)@[a as int].get(field@)->Some_0->Entity_0 matches Some(ob) ==> ob < old(self)@.len()
                && ob != a,
            opt matches Some(b) ==> (b < old(self)@.len() && b != a),
        ensures
            ({
                let s = old(self)@;
                let old_b = s[a as int].get(field@)->Some_0->Entity_0;
                let s2 = match old_b {
                    Some(ob) => store_set(s, ob as int, field_meta@.refer_right(), FieldValueView::Value(Value::NULL)),
                    None => s,
                };
                final(self)@ == match opt {
                    Some(b) => store_set(
                        s2,
                        b as int,
                        field_meta@.refer_right(),
                        FieldValueView::Value(s[a as int].value_or_null(field_meta@.refer_left())),
                    ),
                    None => s2,
                }
            }),
    {
        let left = field_meta.get_refer_left();
        let right = field_meta.get_refer_right();
        let old_b = self.entities[a].get_entity(field);
        let a_key = self.entities[a].value_or_null(left.as_str());
        match old_b {
            Some(ob) => {
                self.set_field(ob, right.as_str(), FieldValue::Value(Value::NULL));
            },
            None => {},
        }
        match opt {
            Some(b) => {
                self.set_field(b, right.as_str(), FieldValue::Value(a_key));
            },
            None => {},
        }
    }
}

} // verus!
