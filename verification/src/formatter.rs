//! Renders the metadata as Rust source: one struct, accessor impl and trait
//! impl per entity, plus the metadata itself as embedded JSON.
use vstd::prelude::*;

use crate::meta::{EntityMeta, EntityMetaView, FieldMeta, FieldMetaView, OrmMeta, OrmMetaView, ReferKind};
use crate::text::{concat2, join, join_spec, replace, replace_spec, views};

verus! {

pub const TPL: &'static str = r#"
use orm;
use orm::Entity;
use std;

static mut ORM_META: Option<&'static orm::meta::OrmMeta> = None;
static ONCE: std::sync::Once = std::sync::ONCE_INIT;

pub fn orm_meta() -> &'static orm::meta::OrmMeta {
    let json = r#${JSON}#;
    ONCE.call_once(|| unsafe { ORM_META = Some(orm::init::init_meta(json)) });
    unsafe { ORM_META.unwrap() }
}

${ENTITIES}
"#;

pub const TPL_STRUCT: &'static str = r#"
#[derive(Debug, Clone)]
pub struct ${ENTITY_NAME} {
    inner: orm::EntityInnerPointer,
}
"#;

pub const TPL_IMPL: &'static str = r#"
impl ${ENTITY_NAME} {${IMPL_FIELDS}
}
"#;

pub const TPL_IMPL_VALUE: &'static str = r#"
    #[allow(dead_code)]
    pub fn get_${FIELD}(&self) -> ${TYPE} {
        self.inner_get_value::<${TYPE}>("${FIELD}")
    }
    #[allow(dead_code)]
    pub fn set_${FIELD}(&mut self, value: ${SET_TYPE}) {
        self.inner_set_value("${FIELD}", value);
    }
    #[allow(dead_code)]
    pub fn set_${FIELD}_null(&self) {
        self.inner_set_value_null("${FIELD}")
    }
    #[allow(dead_code)]
    pub fn is_${FIELD}_null(&self) -> bool {
        self.inner_is_value_null("${FIELD}")
    }"#;

pub const TPL_IMPL_ENTITY: &'static str = r#"
    #[allow(dead_code)]
    pub fn get_${FIELD}(&self) -> Box<${TYPE}> {
        Box::new(self.inner_get_entity("${FIELD}"))
    }
    #[allow(dead_code)]
    pub fn set_${FIELD}(&mut self, value: ${SET_TYPE}) {
        self.inner_set_entity("${FIELD}", value);
    }
    #[allow(dead_code)]
    pub fn set_${FIELD}_null(&self) {
        self.inner_set_entity_null("${FIELD}")
    }
    #[allow(dead_code)]
    pub fn is_${FIELD}_null(&self) -> bool {
        self.inner_is_entity_null("${FIELD}")
    }"#;

pub const TPL_IMPL_VEC: &'static str = r#"
    #[allow(dead_code)]
    pub fn get_${FIELD}(&self) -> Box<Vec<${TYPE}>> {
        Box::new(self.inner_get_vec("${FIELD}"))
    }
    #[allow(dead_code)]
    pub fn set_${FIELD}(&mut self, value: Vec<${TYPE}>) {
        self.inner_set_vec("${FIELD}", value);
    }
    #[allow(dead_code)]
    pub fn is_${FIELD}_null(&self) -> bool {
        self.inner_is_vec_null("${FIELD}")
    }"#;

pub const TPL_TRAIT: &'static str = r#"
impl orm::Entity for ${ENTITY_NAME} {
    fn orm_meta() -> &'static orm::meta::OrmMeta {
        orm_meta()
    }
    fn meta() -> &'static orm::meta::EntityMeta {
        orm_meta().entity_map.get("${ENTITY_NAME}").unwrap()
    }
    fn default() -> Self {
        ${ENTITY_NAME} {
            inner: std::rc::Rc::new(std::cell::RefCell::new(orm::EntityInner::default(Self::meta(), Self::orm_meta())))
        }
    }
    fn new() -> Self {
        ${ENTITY_NAME} {
            inner: std::rc::Rc::new(std::cell::RefCell::new(orm::EntityInner::new(Self::meta(), Self::orm_meta())))
        }
    }
    fn from_inner(inner: orm::EntityInnerPointer) -> ${ENTITY_NAME} {
        ${ENTITY_NAME} {
            inner: inner,
        }
    }
    fn inner(&self) -> orm::EntityInnerPointer {
        self.inner.clone()
    }
}
"#;

/// The template of a field's accessors: plain accessors for the key and plain
/// fields, entity accessors for single relations, vector accessors for
/// one-to-many relations.
pub open spec fn field_template(f: FieldMetaView) -> Seq<char> {
    match f {
        FieldMetaView::Relation { kind, .. } => if kind == ReferKind::OneToMany {
            TPL_IMPL_VEC@
        } else {
            TPL_IMPL_ENTITY@
        },
        _ => TPL_IMPL_VALUE@,
    }
}

/// The accessors of one field.
pub open spec fn field_source(f: FieldMetaView) -> Seq<char> {
    replace_spec(
        replace_spec(replace_spec(field_template(f), "${FIELD}"@, f.field_name()), "${TYPE}"@, f.rust_type()),
        "${SET_TYPE}"@,
        f.rust_type_set(),
    )
}

pub open spec fn define_source(e: EntityMetaView) -> Seq<char> {
    replace_spec(TPL_STRUCT@, "${ENTITY_NAME}"@, e.entity_name)
}

pub open spec fn impl_source(e: EntityMetaView) -> Seq<char> {
    replace_spec(
        replace_spec(TPL_IMPL@, "${ENTITY_NAME}"@, e.entity_name),
        "${IMPL_FIELDS}"@,
        join_spec(e.fields().map_values(|f: FieldMetaView| field_source(f)), "\n"@),
    )
}

pub open spec fn trait_source(e: EntityMetaView) -> Seq<char> {
    replace_spec(TPL_TRAIT@, "${ENTITY_NAME}"@, e.entity_name)
}

/// The source of one entity: struct, accessors, trait impl.
pub open spec fn entity_source(e: EntityMetaView) -> Seq<char> {
    define_source(e) + impl_source(e) + trait_source(e)
}

/// The whole generated module; `json` is the metadata encoded as JSON.
pub open spec fn meta_source(o: OrmMetaView, json: Seq<char>) -> Seq<char> {
    replace_spec(
        replace_spec(TPL@, "${JSON}"@, "\""@ + json + "\""@),
        "${ENTITIES}"@,
        join_spec(o.entities().map_values(|e: EntityMetaView| entity_source(e)), ""@),
    )
}

/// Every entity's fields are all known, so that their accessors can be written.
pub open spec fn entities_renderable(o: OrmMetaView) -> bool {
    &&& o.entities_known()
    &&& forall|i: int| 0 <= i < o.entities().len() ==> (#[trigger] o.entities()[i]).fields_known()
}

/// The generated module for the metadata `meta`, whose JSON encoding is `json`.
pub fn format_meta(meta: &OrmMeta, json: &str) -> (r: String)
    requires
        entities_renderable(meta@),
    ensures
        r@ == meta_source(meta@, json@),
{
    let json = {
        let mut q = concat2("\"", json);
        q.append("\"");
        q
    };
    let list = meta.get_entities();
    let ghost es = meta@.entities();
    let mut parts: Vec<String> = Vec::new();
    let mut i: usize = 0;
    while i < list.len()
        invariant
            i <= list@.len(),
            crate::meta::entity_ref_views(list@) == es,
            entities_renderable(meta@),
            es == meta@.entities(),
            parts@.len() == i,
            forall|j: int| 0 <= j < i ==> #[trigger] parts@[j]@ == entity_source(es[j]),
        decreases list.len() - i,
    {
        assert(es[i as int] == list@[i as int]@);
        let s = format_entity(list[i]);
        parts.push(s);
        i += 1;
    }
    assert(views(parts@) =~= es.map_values(|e: EntityMetaView| entity_source(e)));
    let entities = join(&parts, "");
    proof {
        reveal_strlit("${JSON}");
    }
    let tpl = replace(TPL, "${JSON}", json.as_str());
    proof {
        reveal_strlit("${ENTITIES}");
    }
    replace(tpl.as_str(), "${ENTITIES}", entities.as_str())
}

fn format_entity(meta: &EntityMeta) -> (r: String)
    requires
        meta@.fields_known(),
    ensures
        r@ == entity_source(meta@),
{
    let entity = format_entity_define(meta);
    let implt = format_entity_impl(meta);
    let treit = format_entity_trait(meta);
    let mut r = entity;
    r.append(implt.as_str());
    r.append(treit.as_str());
    r
}

fn format_entity_define(meta: &EntityMeta) -> (r: String)
    ensures
        r@ == define_source(meta@),
{
    proof {
        reveal_strlit("${ENTITY_NAME}");
    }
    replace(TPL_STRUCT, "${ENTITY_NAME}", meta.entity_name.as_str())
}

fn format_entity_impl(meta: &EntityMeta) -> (r: String)
    requires
        meta@.fields_known(),
    ensures
        r@ == impl_source(meta@),
{
    let fields = meta.get_fields();
    let ghost fs = meta@.fields();
    let mut parts: Vec<String> = Vec::new();
    let mut i: usize = 0;
    while i < fields.len()
        invariant
            i <= fields@.len(),
            crate::meta::ref_views(fields@) == fs,
            parts@.len() == i,
            forall|j: int| 0 <= j < i ==> #[trigger] parts@[j]@ == field_source(fs[j]),
        decreases fields.len() - i,
    {
        assert(fs[i as int] == fields@[i as int]@);
        let s = format_entity_field(fields[i]);
        parts.push(s);
        i += 1;
    }
    assert(views(parts@) =~= fs.map_values(|f: FieldMetaView| field_source(f)));
    let body = join(&parts, "\n");
    proof {
        reveal_strlit("${ENTITY_NAME}");
    }
    let tpl = replace(TPL_IMPL, "${ENTITY_NAME}", meta.entity_name.as_str());
    proof {
        reveal_strlit("${IMPL_FIELDS}");
    }
    replace(tpl.as_str(), "${IMPL_FIELDS}", body.as_str())
}

fn format_entity_field(meta: &FieldMeta) -> (r: String)
    ensures
        r@ == field_source(meta@),
{
    let tpl = match meta {
        FieldMeta::Id { .. } | FieldMeta::String { .. } | FieldMeta::Integer { .. } => TPL_IMPL_VALUE,
        FieldMeta::Refer { .. } | FieldMeta::Pointer { .. } | FieldMeta::OneToOne { .. } =>
            TPL_IMPL_ENTITY,
        FieldMeta::OneToMany { .. } => TPL_IMPL_VEC,
    };
    let name = meta.get_field_name();
    let ty = meta.get_type_name();
    let set_ty = meta.get_type_name_set();
    proof {
        reveal_strlit("${FIELD}");
    }
    let a = replace(tpl, "${FIELD}", name.as_str());
    proof {
        reveal_strlit("${TYPE}");
    }
    let b = replace(a.as_str(), "${TYPE}", ty.as_str());
    proof {
        reveal_strlit("${SET_TYPE}");
    }
    replace(b.as_str(), "${SET_TYPE}", set_ty.as_str())
}

fn format_entity_trait(meta: &EntityMeta) -> (r: String)
    ensures
        r@ == trait_source(meta@),
{
    proof {
        reveal_strlit("${ENTITY_NAME}");
    }
    replace(TPL_TRAIT, "${ENTITY_NAME}", meta.entity_name.as_str())
}

} // verus!
