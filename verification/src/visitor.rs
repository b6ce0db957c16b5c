//! Builds the entity metadata from struct declarations.
//!
//! A declaration is read as the Rust parser gives it: the struct's name and
//! attributes, and for each named field its name, its type as text and its
//! attributes.
use vstd::prelude::*;

use crate::assoc::{index_of, lemma_index_of, map_get, map_put};
use crate::attr::{
    attr_names, attr_of_lit, attr_of_meta, attr_of_nested, lit_text, meta_lits_ok, visit_attrs,
    Attr, MetaItem, MetaItemKind, NestedMetaItem,
};
use crate::meta::{Cascade, EntityMeta, EntityMetaView, Fetch, FieldMeta, FieldMetaView, OrmMeta, OrmMetaView, ReferKind};
use crate::text::{concat2, lowercase_of, owned, to_lowercase, parse_bool, parse_bool_spec, parse_u64, parse_u64_spec, str_eq, views};

verus! {

/// A named field of a struct declaration.
#[derive(Debug)]
pub struct StructField {
    pub name: String,
    /// The field's type as the pretty-printer writes it, e.g. `i32` or `Ptr`.
    pub ty: String,
    pub attrs: Vec<MetaItem>,
}

/// A struct declaration; `fields` is `None` for tuple and unit structs.
#[derive(Debug)]
pub struct StructItem {
    pub name: String,
    pub attrs: Vec<MetaItem>,
    pub fields: Option<Vec<StructField>>,
}

/// Length of a string column whose field has no `len` attribute.
pub const DEFAULT_LEN: u64 = 128;

// ---------------------------------------------------------------------------
// Attribute queries stated on the declaration itself.

/// The names of a declaration's attributes.
pub open spec fn decl_names(attrs: Seq<MetaItem>) -> Seq<Seq<char>> {
    attrs.map_values(|m: MetaItem| m.name@)
}

/// The name that a list element gets in the attribute tree.
pub open spec fn nested_name(n: NestedMetaItem) -> Seq<char> {
    match n {
        NestedMetaItem::MetaItem(m) => m.name@,
        NestedMetaItem::Literal(l) => lit_text(l),
    }
}

/// The names of an attribute's values; `None` for a bare `#[name]`.
pub open spec fn meta_values(m: MetaItem) -> Option<Seq<Seq<char>>> {
    match m.node {
        MetaItemKind::Word => None,
        MetaItemKind::List(v) => Some(v@.map_values(|n: NestedMetaItem| nested_name(n))),
        MetaItemKind::NameValue(l) => Some(seq![lit_text(l)]),
    }
}

/// The first attribute named `name`.
pub open spec fn decl_item(attrs: Seq<MetaItem>, name: Seq<char>) -> Option<MetaItem> {
    let i = index_of(decl_names(attrs), name);
    if i < 0 { None } else { Some(attrs[i]) }
}

/// The names of the values of the attribute named `name` (none if absent).
pub open spec fn decl_values(attrs: Seq<MetaItem>, name: Seq<char>) -> Seq<Seq<char>> {
    match decl_item(attrs, name) {
        None => Seq::empty(),
        Some(m) => match meta_values(m) {
            None => Seq::empty(),
            Some(v) => v,
        },
    }
}

/// The single value of the attribute named `name`, if it has one.
pub open spec fn decl_value(attrs: Seq<MetaItem>, name: Seq<char>) -> Option<Seq<char>> {
    match decl_item(attrs, name) {
        None => None,
        Some(m) => match meta_values(m) {
            None => None,
            Some(v) => if v.len() == 0 {
                None
            } else {
                Some(v[0])
            },
        },
    }
}

/// The attribute named `name` has at most one value.
pub open spec fn decl_value_ok(attrs: Seq<MetaItem>, name: Seq<char>) -> bool {
    decl_item(attrs, name) matches Some(m) ==> (meta_values(m) matches Some(v) ==> v.len() <= 1)
}

/// No literal in the declaration's attributes is of an unsupported kind.
pub open spec fn decl_lits_ok(attrs: Seq<MetaItem>) -> bool {
    forall|i: int| 0 <= i < attrs.len() ==> meta_lits_ok(#[trigger] attrs[i])
}

/// The tree that `visit_attrs` builds answers queries as the declaration does.
proof fn lemma_attr_queries(a: Attr, attrs: Seq<MetaItem>, name: Seq<char>)
    requires
        a.values matches Some(w) && w@.len() == attrs.len() && forall|i: int|
            0 <= i < attrs.len() ==> attr_of_meta(#[trigger] w@[i], attrs[i]),
    ensures
        a.has_item(name) == (decl_item(attrs, name) is Some),
        a.get_ok(name) == decl_value_ok(attrs, name),
        a.value_of(name) == decl_value(attrs, name),
        a.values_of(name) == decl_values(attrs, name),
{
    let w = a.values->Some_0;
    assert(attr_names(w@) =~= decl_names(attrs)) by {
        assert forall|i: int| 0 <= i < attrs.len() implies attr_names(w@)[i] == decl_names(attrs)[i] by {
            assert(attr_of_meta(w@[i], attrs[i]));
        }
    }
    let i = index_of(decl_names(attrs), name);
    lemma_index_of(decl_names(attrs), name);
    if i >= 0 {
        let item = w@[i];
        let m = attrs[i];
        assert(attr_of_meta(item, m));
        match m.node {
            MetaItemKind::Word => {},
            MetaItemKind::List(v) => {
                let w2 = item.values->Some_0;
                assert(attr_names(w2@) =~= v@.map_values(|n: NestedMetaItem| nested_name(n))) by {
                    assert forall|j: int| 0 <= j < v@.len() implies attr_names(w2@)[j]
                        == nested_name(v@[j]) by {
                        assert(attr_of_nested(w2@[j], v@[j]));
                    }
                }
            },
            MetaItemKind::NameValue(l) => {
                let w2 = item.values->Some_0;
                assert(attr_of_lit(w2@[0], l));
                assert(attr_names(w2@) =~= seq![lit_text(l)]);
            },
        }
    }
}

// ---------------------------------------------------------------------------
// Reading single settings.

/// A field is nullable unless `#[nullable(false)]` says otherwise.
pub open spec fn nullable_of(attrs: Seq<MetaItem>) -> bool {
    match decl_value(attrs, "nullable"@) {
        None => true,
        Some(s) => parse_bool_spec(s)->Some_0,
    }
}

/// A key is assigned by the application unless `#[auto(true)]` is given.
pub open spec fn auto_of(attrs: Seq<MetaItem>) -> bool {
    match decl_value(attrs, "auto"@) {
        None => false,
        Some(s) => parse_bool_spec(s)->Some_0,
    }
}

/// The length of a string column.
pub open spec fn len_of(attrs: Seq<MetaItem>) -> u64 {
    match decl_value(attrs, "len"@) {
        None => DEFAULT_LEN,
        Some(s) => parse_u64_spec(s)->Some_0,
    }
}

/// The cascade that a name in `#[cascade(..)]` denotes.
pub open spec fn cascade_named(s: Seq<char>) -> Option<Cascade> {
    if s == "insert"@ {
        Some(Cascade::Insert)
    } else if s == "update"@ {
        Some(Cascade::Update)
    } else if s == "delete"@ {
        Some(Cascade::Delete)
    } else {
        None
    }
}

/// The cascades listed in `#[cascade(..)]`.
pub open spec fn cascades_of(attrs: Seq<MetaItem>) -> Seq<Cascade> {
    decl_values(attrs, "cascade"@).map_values(|s: Seq<char>| cascade_named(s)->Some_0)
}

/// The fetch mode of `#[fetch(..)]`; lazy by default.
pub open spec fn fetch_named(s: Seq<char>) -> Option<Fetch> {
    if s == "lazy"@ {
        Some(Fetch::Lazy)
    } else if s == "eager"@ {
        Some(Fetch::Eager)
    } else {
        None
    }
}

pub open spec fn fetch_of(attrs: Seq<MetaItem>) -> Fetch {
    match decl_value(attrs, "fetch"@) {
        None => Fetch::Lazy,
        Some(s) => fetch_named(s)->Some_0,
    }
}

/// The settings can be read: each is given at most once as a single value of
/// the right form.
pub open spec fn bool_setting_ok(attrs: Seq<MetaItem>, name: Seq<char>) -> bool {
    &&& decl_value_ok(attrs, name)
    &&& decl_value(attrs, name) matches Some(s) ==> parse_bool_spec(s) is Some
}

pub open spec fn len_setting_ok(attrs: Seq<MetaItem>) -> bool {
    &&& decl_value_ok(attrs, "len"@)
    &&& decl_value(attrs, "len"@) matches Some(s) ==> parse_u64_spec(s) is Some
}

pub open spec fn cascades_ok(attrs: Seq<MetaItem>) -> bool {
    forall|i: int|
        0 <= i < decl_values(attrs, "cascade"@).len() ==> cascade_named(
            #[trigger] decl_values(attrs, "cascade"@)[i],
        ) is Some
}

pub open spec fn fetch_ok(attrs: Seq<MetaItem>) -> bool {
    &&& decl_value_ok(attrs, "fetch"@)
    &&& decl_value(attrs, "fetch"@) matches Some(s) ==> fetch_named(s) is Some
}

/// The tree gathered from a declaration's attributes.
pub open spec fn gathered(a: Attr, attrs: Seq<MetaItem>) -> bool {
    a.values matches Some(w) && w@.len() == attrs.len() && forall|i: int|
        0 <= i < attrs.len() ==> attr_of_meta(#[trigger] w@[i], attrs[i])
}

fn pick_nullable(attr: &Attr, Ghost(attrs): Ghost<Seq<MetaItem>>) -> (r: bool)
    requires
        gathered(*attr, attrs),
        bool_setting_ok(attrs, "nullable"@),
    ensures
        r == nullable_of(attrs),
{
    proof {
        lemma_attr_queries(*attr, attrs, "nullable"@);
    }
    match attr.get("nullable") {
        None => true,
        Some(s) => match parse_bool(s) {
            Some(b) => b,
            None => false,
        },
    }
}

fn pick_auto(attr: &Attr, Ghost(attrs): Ghost<Seq<MetaItem>>) -> (r: bool)
    requires
        gathered(*attr, attrs),
        bool_setting_ok(attrs, "auto"@),
    ensures
        r == auto_of(attrs),
{
    proof {
        lemma_attr_queries(*attr, attrs, "auto"@);
    }
    match attr.get("auto") {
        None => false,
        Some(s) => match parse_bool(s) {
            Some(b) => b,
            None => false,
        },
    }
}

fn pick_len(attr: &Attr, Ghost(attrs): Ghost<Seq<MetaItem>>) -> (r: u64)
    requires
        gathered(*attr, attrs),
        len_setting_ok(attrs),
    ensures
        r == len_of(attrs),
{
    proof {
        lemma_attr_queries(*attr, attrs, "len"@);
    }
    match attr.get("len") {
        None => DEFAULT_LEN,
        Some(s) => match parse_u64(s) {
            Some(n) => n,
            None => 0,
        },
    }
}

fn cascade_from_name(s: &str) -> (r: Option<Cascade>)
    ensures
        r == cascade_named(s@),
{
    if str_eq(s, "insert") {
        Some(Cascade::Insert)
    } else if str_eq(s, "update") {
        Some(Cascade::Update)
    } else if str_eq(s, "delete") {
        Some(Cascade::Delete)
    } else {
        None
    }
}

fn pick_cascades(attr: &Attr, Ghost(attrs): Ghost<Seq<MetaItem>>) -> (r: Vec<Cascade>)
    requires
        gathered(*attr, attrs),
        cascades_ok(attrs),
    ensures
        r@ == cascades_of(attrs),
{
    proof {
        lemma_attr_queries(*attr, attrs, "cascade"@);
    }
    let names = attr.get_values("cascade");
    let ghost ns = decl_values(attrs, "cascade"@);
    let mut r: Vec<Cascade> = Vec::new();
    let mut i: usize = 0;
    while i < names.len()
        invariant
            i <= names@.len(),
            crate::text::views(names@) == ns,
            ns == decl_values(attrs, "cascade"@),
            cascades_ok(attrs),
            r@.len() == i,
            forall|j: int| 0 <= j < i ==> #[trigger] r@[j] == cascade_named(ns[j])->Some_0,
        decreases names.len() - i,
    {
        assert(ns[i as int] == names@[i as int]@);
        assert(cascade_named(ns[i as int]) is Some);
        match cascade_from_name(names[i].as_str()) {
            Some(c) => r.push(c),
            None => {},
        }
        i += 1;
    }
    assert(r@ =~= cascades_of(attrs));
    r
}

fn fetch_from_name(s: &str) -> (r: Option<Fetch>)
    ensures
        r == fetch_named(s@),
{
    if str_eq(s, "lazy") {
        Some(Fetch::Lazy)
    } else if str_eq(s, "eager") {
        Some(Fetch::Eager)
    } else {
        None
    }
}

fn pick_fetch(attr: &Attr, Ghost(attrs): Ghost<Seq<MetaItem>>) -> (r: Fetch)
    requires
        gathered(*attr, attrs),
        fetch_ok(attrs),
    ensures
        r == fetch_of(attrs),
{
    proof {
        lemma_attr_queries(*attr, attrs, "fetch"@);
    }
    match attr.get("fetch") {
        None => Fetch::Lazy,
        Some(s) => match fetch_from_name(s) {
            Some(f) => f,
            None => Fetch::Lazy,
        },
    }
}

// ---------------------------------------------------------------------------
// Fields.

/// The Rust types stored in integer columns.
pub open spec fn is_integer_type(ty: Seq<char>) -> bool {
    ty == "i32"@ || ty == "i64"@ || ty == "u32"@ || ty == "u64"@
}

/// The attribute that marks a relation of the given kind.
pub open spec fn kind_attr(k: ReferKind) -> Seq<char> {
    match k {
        ReferKind::Refer => "refer"@,
        ReferKind::Pointer => "pointer"@,
        ReferKind::OneToOne => "one_one"@,
        ReferKind::OneToMany => "one_many"@,
    }
}

/// The relation that a field's attributes declare; the first of `refer`,
/// `pointer`, `one_one` and `one_many` that is present wins.
pub open spec fn relation_kind_of(attrs: Seq<MetaItem>) -> Option<ReferKind> {
    if decl_item(attrs, "refer"@) is Some {
        Some(ReferKind::Refer)
    } else if decl_item(attrs, "pointer"@) is Some {
        Some(ReferKind::Pointer)
    } else if decl_item(attrs, "one_one"@) is Some {
        Some(ReferKind::OneToOne)
    } else if decl_item(attrs, "one_many"@) is Some {
        Some(ReferKind::OneToMany)
    } else {
        None
    }
}

/// The key fields (this entity's side, the other entity's side) of a relation
/// of kind `k` declared on `field` with the attribute values `values`.
/// A pointer defaults to `<field>_id` here and `id` there; a one-to-one or
/// one-to-many relation defaults to `id` here and `<alias>_id` there.
pub open spec fn relation_ends(
    k: ReferKind,
    values: Seq<Seq<char>>,
    field: Seq<char>,
    alias: Seq<char>,
) -> (Seq<char>, Seq<char>) {
    match k {
        ReferKind::Refer => (values[0], values[1]),
        ReferKind::Pointer => if values.len() == 0 {
            (field + "_id"@, "id"@)
        } else if values.len() == 1 {
            (values[0], "id"@)
        } else {
            (values[0], values[1])
        },
        _ => if values.len() == 0 {
            ("id"@, alias + "_id"@)
        } else if values.len() == 1 {
            ("id"@, values[0])
        } else {
            (values[0], values[1])
        },
    }
}

/// The relation's attribute has a usable number of values: exactly two for
/// `refer`, at most two for the others.
pub open spec fn relation_values_ok(attrs: Seq<MetaItem>) -> bool {
    match relation_kind_of(attrs) {
        None => true,
        Some(ReferKind::Refer) => decl_values(attrs, "refer"@).len() == 2,
        Some(k) => decl_values(attrs, kind_attr(k)).len() <= 2,
    }
}

/// The metadata of a field of an entity whose alias is `alias`, or `None` for a
/// field that is neither a key, a plain value nor a declared relation.
pub open spec fn field_meta_of(f: StructField, alias: Seq<char>) -> Option<FieldMetaView> {
    let name = f.name@;
    let ty = f.ty@;
    let attrs = f.attrs@;
    if name == "id"@ {
        Some(FieldMetaView::Id { auto: auto_of(attrs) })
    } else if is_integer_type(ty) {
        Some(
            FieldMetaView::Integer {
                field: name,
                column: name,
                number: ty,
                nullable: nullable_of(attrs),
            },
        )
    } else if ty == "String"@ {
        Some(
            FieldMetaView::String {
                field: name,
                column: name,
                len: len_of(attrs),
                nullable: nullable_of(attrs),
            },
        )
    } else {
        match relation_kind_of(attrs) {
            None => None,
            Some(k) => {
                let ends = relation_ends(k, decl_values(attrs, kind_attr(k)), name, alias);
                Some(
                    FieldMetaView::Relation {
                        kind: k,
                        field: name,
                        entity: ty,
                        left: ends.0,
                        right: ends.1,
                        cascades: cascades_of(attrs),
                        fetch: fetch_of(attrs),
                    },
                )
            },
        }
    }
}

/// Reading a field's attributes succeeds.
pub open spec fn field_ok(f: StructField) -> bool {
    let name = f.name@;
    let ty = f.ty@;
    let attrs = f.attrs@;
    &&& decl_lits_ok(attrs)
    &&& if name == "id"@ {
        bool_setting_ok(attrs, "auto"@)
    } else if is_integer_type(ty) {
        bool_setting_ok(attrs, "nullable"@)
    } else if ty == "String"@ {
        bool_setting_ok(attrs, "nullable"@) && len_setting_ok(attrs)
    } else {
        cascades_ok(attrs) && fetch_ok(attrs) && relation_values_ok(attrs)
    }
}

/// The field's metadata table after a field is read into it.
pub open spec fn with_field(
    m: Seq<(Seq<char>, FieldMetaView)>,
    f: StructField,
    alias: Seq<char>,
) -> Seq<(Seq<char>, FieldMetaView)> {
    match field_meta_of(f, alias) {
        Some(v) => map_put(m, f.name@, v),
        None => m,
    }
}

/// The relation fields read into an entity: the values of its relation
/// attribute give the key fields.
fn relation_meta(
    field: &StructField,
    attr: &Attr,
    alias: &str,
    kind: ReferKind,
    cascades: Vec<Cascade>,
    fetch: Fetch,
) -> (r: FieldMeta)
    requires
        gathered(*attr, field.attrs@),
        relation_kind_of(field.attrs@) == Some(kind),
        relation_values_ok(field.attrs@),
    ensures
        r@ == (FieldMetaView::Relation {
            kind,
            field: field.name@,
            entity: field.ty@,
            left: relation_ends(kind, decl_values(field.attrs@, kind_attr(kind)), field.name@, alias@).0,
            right: relation_ends(kind, decl_values(field.attrs@, kind_attr(kind)), field.name@, alias@).1,
            cascades: cascades@,
            fetch,
        }),
{
    let name = field.name.as_str();
    let ty = field.ty.as_str();
    let key = match kind {
        ReferKind::Refer => "refer",
        ReferKind::Pointer => "pointer",
        ReferKind::OneToOne => "one_one",
        ReferKind::OneToMany => "one_many",
    };
    proof {
        lemma_attr_queries(*attr, field.attrs@, kind_attr(kind));
    }
    let values = attr.get_values(key);
    let ghost vs = decl_values(field.attrs@, kind_attr(kind));
    assert(views(values@) == vs);
    let (left, right) = match kind {
        ReferKind::Refer => (values[0].clone(), values[1].clone()),
        ReferKind::Pointer => {
            if values.len() == 0 {
                (concat2(name, "_id"), owned("id"))
            } else if values.len() == 1 {
                (values[0].clone(), owned("id"))
            } else {
                (values[0].clone(), values[1].clone())
            }
        },
        _ => {
            if values.len() == 0 {
                (owned("id"), concat2(alias, "_id"))
            } else if values.len() == 1 {
                (owned("id"), values[0].clone())
            } else {
                (values[0].clone(), values[1].clone())
            }
        },
    };
    let l = left.as_str();
    let r = right.as_str();
    match kind {
        ReferKind::Refer => FieldMeta::new_refer(name, ty, l, r, cascades, fetch),
        ReferKind::Pointer => FieldMeta::new_pointer(name, ty, l, r, cascades, fetch),
        ReferKind::OneToOne => FieldMeta::new_one_one(name, ty, l, r, cascades, fetch),
        ReferKind::OneToMany => FieldMeta::new_one_many(name, ty, l, r, cascades, fetch),
    }
}

/// Reads one field into the entity's metadata: its name joins the declaration
/// order, and its metadata, if it has any, joins the field table.
fn visit_struct_field(field: &StructField, entity_meta: &mut EntityMeta)
    requires
        field_ok(*field),
    ensures
        final(entity_meta)@ == (EntityMetaView {
            field_vec: old(entity_meta)@.field_vec.push(field.name@),
            field_map: with_field(old(entity_meta)@.field_map, *field, old(entity_meta)@.alias),
            ..old(entity_meta)@
        }),
{
    let field_name = field.name.as_str();
    let ty = field.ty.as_str();
    let ghost attrs = field.attrs@;
    let attr = visit_attrs(&field.attrs);
    entity_meta.push_field_name(field.name.clone());

    if str_eq(field_name, "id") {
        let auto = pick_auto(&attr, Ghost(attrs));
        entity_meta.put_field(field.name.clone(), FieldMeta::new_pkey(auto));
        return;
    }
    if str_eq(ty, "i32") || str_eq(ty, "i64") || str_eq(ty, "u32") || str_eq(ty, "u64") {
        let nullable = pick_nullable(&attr, Ghost(attrs));
        let field_meta = FieldMeta::new_integer(field_name, field_name, ty, nullable);
        entity_meta.put_field(field.name.clone(), field_meta);
        return;
    }
    if str_eq(ty, "String") {
        let nullable = pick_nullable(&attr, Ghost(attrs));
        let len = pick_len(&attr, Ghost(attrs));
        let field_meta = FieldMeta::new_string(field_name, field_name, len, nullable);
        entity_meta.put_field(field.name.clone(), field_meta);
        return;
    }
    let cascades = pick_cascades(&attr, Ghost(attrs));
    let fetch = pick_fetch(&attr, Ghost(attrs));
    proof {
        lemma_attr_queries(attr, attrs, "refer"@);
        lemma_attr_queries(attr, attrs, "pointer"@);
        lemma_attr_queries(attr, attrs, "one_one"@);
        lemma_attr_queries(attr, attrs, "one_many"@);
    }
    let kind = if attr.has("refer") {
        Some(ReferKind::Refer)
    } else if attr.has("pointer") {
        Some(ReferKind::Pointer)
    } else if attr.has("one_one") {
        Some(ReferKind::OneToOne)
    } else if attr.has("one_many") {
        Some(ReferKind::OneToMany)
    } else {
        None
    };
    match kind {
        Some(k) => {
            let field_meta = relation_meta(field, &attr, entity_meta.alias.as_str(), k, cascades, fetch);
            entity_meta.put_field(field.name.clone(), field_meta);
        },
        None => {},
    }
}

// ---------------------------------------------------------------------------
// Entities.

/// The field table built from a struct's fields, read in order.
pub open spec fn fields_map(fields: Seq<StructField>, alias: Seq<char>) -> Seq<(Seq<char>, FieldMetaView)>
    decreases fields.len(),
{
    if fields.len() == 0 {
        Seq::empty()
    } else {
        with_field(fields_map(fields.drop_last(), alias), fields.last(), alias)
    }
}

/// An entity's alias: `#[alias(..)]`, or its name in lower case.
pub open spec fn struct_alias(item: StructItem) -> Seq<char> {
    match decl_value(item.attrs@, "alias"@) {
        Some(a) => a,
        None => lowercase_of(item.name@),
    }
}

/// An entity's table: `#[table(..)]`, or its name.
pub open spec fn struct_table(item: StructItem) -> Seq<char> {
    match decl_value(item.attrs@, "table"@) {
        Some(t) => t,
        None => item.name@,
    }
}

/// The metadata read from a struct declaration; an entity without an `id`
/// field gets a generated key, first in field order.
pub open spec fn entity_meta_of(item: StructItem) -> EntityMetaView {
    let alias = struct_alias(item);
    let base = EntityMetaView {
        entity_name: item.name@,
        table_name: struct_table(item),
        alias: alias,
        field_vec: Seq::empty(),
        field_map: Seq::empty(),
    };
    match item.fields {
        None => base,
        Some(fs) => {
            let names = fs@.map_values(|f: StructField| f.name@);
            let m = fields_map(fs@, alias);
            if map_get(m, "id"@) is None {
                EntityMetaView {
                    field_vec: seq!["id"@] + names,
                    field_map: map_put(m, "id"@, FieldMetaView::Id { auto: true }),
                    ..base
                }
            } else {
                EntityMetaView { field_vec: names, field_map: m, ..base }
            }
        },
    }
}

/// Reading a struct declaration succeeds.
pub open spec fn struct_ok(item: StructItem) -> bool {
    &&& decl_lits_ok(item.attrs@)
    &&& decl_value_ok(item.attrs@, "table"@)
    &&& decl_value_ok(item.attrs@, "alias"@)
    &&& item.fields matches Some(fs) ==> forall|i: int| 0 <= i < fs@.len() ==> field_ok(#[trigger] fs@[i])
}

/// Reads one struct declaration: the entity joins the declaration order and the
/// entity table.
fn visit_struct(item: &StructItem, orm_meta: &mut OrmMeta)
    requires
        struct_ok(*item),
    ensures
        final(orm_meta)@ == (OrmMetaView {
            entity_vec: old(orm_meta)@.entity_vec.push(item.name@),
            entity_map: map_put(old(orm_meta)@.entity_map, item.name@, entity_meta_of(*item)),
        }),
{
    let entity = item.name.as_str();
    orm_meta.push_entity_name(item.name.clone());

    let ghost attrs = item.attrs@;
    let attr = visit_attrs(&item.attrs);
    proof {
        lemma_attr_queries(attr, attrs, "table"@);
        lemma_attr_queries(attr, attrs, "alias"@);
    }
    let mut entity_meta = EntityMeta::default();
    entity_meta.entity_name = item.name.clone();
    entity_meta.table_name = match attr.get("table") {
        Some(v) => owned(v),
        None => owned(entity),
    };
    entity_meta.alias = match attr.get("alias") {
        Some(v) => owned(v),
        None => to_lowercase(entity),
    };
    let ghost alias = entity_meta@.alias;
    assert(alias == struct_alias(*item));

    match &item.fields {
        Some(vec) => {
            assert(forall|j: int| 0 <= j < vec@.len() ==> field_ok(#[trigger] vec@[j]));
            assert(entity_meta@.field_vec =~= vec@.take(0).map_values(|f: StructField| f.name@));
            assert(entity_meta@.field_map =~= fields_map(vec@.take(0), alias));
            let mut i: usize = 0;
            while i < vec.len()
                invariant
                    i <= vec@.len(),
                    item.fields == Some(*vec),
                    forall|j: int| 0 <= j < vec@.len() ==> field_ok(#[trigger] vec@[j]),
                    entity_meta@.entity_name == item.name@,
                    entity_meta@.table_name == struct_table(*item),
                    entity_meta@.alias == alias,
                    entity_meta@.field_vec == vec@.take(i as int).map_values(|f: StructField| f.name@),
                    entity_meta@.field_map == fields_map(vec@.take(i as int), alias),
                decreases vec.len() - i,
            {
                assert(field_ok(vec@[i as int]));
                visit_struct_field(&vec[i], &mut entity_meta);
                assert(vec@.take(i + 1).drop_last() =~= vec@.take(i as int));
                assert(entity_meta@.field_vec =~= vec@.take(i + 1).map_values(|f: StructField| f.name@));
                i += 1;
            }
            assert(vec@.take(i as int) =~= vec@);
            assert(entity_meta@.field_vec == vec@.map_values(|f: StructField| f.name@));
            if entity_meta.get_field("id").is_none() {
                entity_meta.prepend_field_name(owned("id"));
                entity_meta.put_field(owned("id"), FieldMeta::new_pkey(true));
            }
        },
        None => {
            assert(entity_meta@.field_vec =~= Seq::empty());
            assert(entity_meta@.field_map =~= Seq::empty());
        },
    }
    assert(entity_meta@ == entity_meta_of(*item));
    orm_meta.put_entity(item.name.clone(), entity_meta);
}

// ---------------------------------------------------------------------------
// The whole declaration list.

/// The metadata of a list of struct declarations, before relation keys are added.
pub open spec fn base_meta(items: Seq<StructItem>) -> OrmMetaView
    decreases items.len(),
{
    if items.len() == 0 {
        OrmMetaView { entity_vec: Seq::empty(), entity_map: Seq::empty() }
    } else {
        let o = base_meta(items.drop_last());
        OrmMetaView {
            entity_vec: o.entity_vec.push(items.last().name@),
            entity_map: map_put(o.entity_map, items.last().name@, entity_meta_of(items.last())),
        }
    }
}

/// The relation fields of one entity, paired with the entity's name.
pub open spec fn entity_links(name: Seq<char>, fm: Seq<(Seq<char>, FieldMetaView)>) -> Seq<(Seq<char>, FieldMetaView)>
    decreases fm.len(),
{
    if fm.len() == 0 {
        Seq::empty()
    } else if fm.last().1.is_relation() {
        entity_links(name, fm.drop_last()).push((name, fm.last().1))
    } else {
        entity_links(name, fm.drop_last())
    }
}

/// Every relation field of every entity, paired with its entity's name.
pub open spec fn links(em: Seq<(Seq<char>, EntityMetaView)>) -> Seq<(Seq<char>, FieldMetaView)>
    decreases em.len(),
{
    if em.len() == 0 {
        Seq::empty()
    } else {
        links(em.drop_last()) + entity_links(em.last().0, em.last().1.field_map)
    }
}

/// The entity `ent` after its key field `key` is added, if it lacks one.
pub open spec fn add_key(o: OrmMetaView, ent: Seq<char>, key: Seq<char>) -> OrmMetaView {
    let e = o.entity(ent)->Some_0;
    if e.field(key) is Some {
        o
    } else {
        let e2 = EntityMetaView {
            field_vec: e.field_vec.push(key),
            field_map: map_put(
                e.field_map,
                key,
                FieldMetaView::Integer { field: key, column: key, number: "u64"@, nullable: true },
            ),
            ..e
        };
        OrmMetaView { entity_map: map_put(o.entity_map, ent, e2), ..o }
    }
}

/// The metadata after the key fields of the relations `ls` are added on both sides.
pub open spec fn complete(o: OrmMetaView, ls: Seq<(Seq<char>, FieldMetaView)>) -> OrmMetaView
    decreases ls.len(),
{
    if ls.len() == 0 {
        o
    } else {
        let o1 = complete(o, ls.drop_last());
        let l = ls.last();
        add_key(add_key(o1, l.0, l.1.refer_left()), l.1.refer_entity(), l.1.refer_right())
    }
}

/// The metadata of a list of struct declarations: each relation's key fields
/// are added where the entities on its two ends lack them.
pub open spec fn krate_meta(items: Seq<StructItem>) -> OrmMetaView {
    let b = base_meta(items);
    complete(b, links(b.entity_map))
}

/// Reading the declarations succeeds: each struct can be read and every
/// relation names a declared entity.
pub open spec fn krate_ok(items: Seq<StructItem>) -> bool {
    let b = base_meta(items);
    &&& forall|i: int| 0 <= i < items.len() ==> struct_ok(#[trigger] items[i])
    &&& forall|j: int|
        0 <= j < links(b.entity_map).len() ==> b.entity(
            (#[trigger] links(b.entity_map)[j]).1.refer_entity(),
        ) is Some
}

/// The relation links of the metadata: for each relation field, the entity
/// holding it, its key there, the entity it refers to and its key there.
fn collect_links(orm_meta: &OrmMeta) -> (r: Vec<(String, String, String, String)>)
    ensures
        r@.len() == links(orm_meta@.entity_map).len(),
        forall|j: int|
            0 <= j < r@.len() ==> {
                let l = #[trigger] links(orm_meta@.entity_map)[j];
                &&& r@[j].0@ == l.0
                &&& r@[j].1@ == l.1.refer_left()
                &&& r@[j].2@ == l.1.refer_entity()
                &&& r@[j].3@ == l.1.refer_right()
            },
{
    let ghost em = orm_meta@.entity_map;
    let mut r: Vec<(String, String, String, String)> = Vec::new();
    let mut i: usize = 0;
    while i < orm_meta.entity_map.len()
        invariant
            i <= orm_meta.entity_map@.len(),
            em == orm_meta@.entity_map,
            r@.len() == links(em.take(i as int)).len(),
            forall|j: int|
                0 <= j < r@.len() ==> {
                    let l = #[trigger] links(em.take(i as int))[j];
                    &&& r@[j].0@ == l.0
                    &&& r@[j].1@ == l.1.refer_left()
                    &&& r@[j].2@ == l.1.refer_entity()
                    &&& r@[j].3@ == l.1.refer_right()
                },
        decreases orm_meta.entity_map.len() - i,
    {
        let name = &orm_meta.entity_map[i].0;
        let fm = &orm_meta.entity_map[i].1.field_map;
        let ghost fmv = em[i as int].1.field_map;
        assert(em[i as int].0 == name@);
        let ghost prefix = links(em.take(i as int));
        let mut k: usize = 0;
        while k < fm.len()
            invariant
                k <= fm@.len(),
                fmv == crate::meta::field_entry_views(fm@),
                r@.len() == prefix.len() + entity_links(name@, fmv.take(k as int)).len(),
                forall|j: int|
                    0 <= j < r@.len() ==> {
                        let l = #[trigger] (prefix + entity_links(name@, fmv.take(k as int)))[j];
                        &&& r@[j].0@ == l.0
                        &&& r@[j].1@ == l.1.refer_left()
                        &&& r@[j].2@ == l.1.refer_entity()
                        &&& r@[j].3@ == l.1.refer_right()
                    },
            decreases fm.len() - k,
        {
            let f = &fm[k].1;
            assert(fmv[k as int].1 == f@);
            assert(fmv.take(k + 1).drop_last() =~= fmv.take(k as int));
            let ghost before = prefix + entity_links(name@, fmv.take(k as int));
            if f.is_type_refer() {
                let (left, right) = f.get_refer_lr();
                let entity = f.get_refer_entity();
                r.push((name.clone(), left, entity, right));
                assert(prefix + entity_links(name@, fmv.take(k + 1)) =~= before.push((name@, f@)));
            } else {
                assert(prefix + entity_links(name@, fmv.take(k + 1)) =~= before);
            }
            k += 1;
        }
        assert(fmv.take(k as int) =~= fmv);
        assert(em.take(i + 1).drop_last() =~= em.take(i as int));
        assert(links(em.take(i + 1)) == prefix + entity_links(name@, fmv));
        i += 1;
    }
    assert(em.take(i as int) =~= em);
    r
}

/// Adds the key field `key` to the entity `entity` unless it has one.
fn add_key_field(orm_meta: &mut OrmMeta, entity: &str, key: &str)
    requires
        old(orm_meta)@.entity(entity@) is Some,
    ensures
        final(orm_meta)@ == add_key(old(orm_meta)@, entity@, key@),
{
    proof {
        crate::meta::lemma_entity_keys(orm_meta.entity_map@);
        lemma_index_of(crate::assoc::names_of(orm_meta.entity_map@), entity@);
    }
    let ghost before = orm_meta@;
    match crate::assoc::find(&orm_meta.entity_map, entity) {
        Some(i) => {
            let (name, mut em) = orm_meta.entity_map.remove(i);
            let ghost old_em = em@;
            assert(old_em == before.entity(entity@)->Some_0);
            if em.get_field(key).is_none() {
                em.push_field_name(owned(key));
                em.put_field(owned(key), FieldMeta::new_refer_id(key, key));
            }
            orm_meta.entity_map.insert(i, (name, em));
            assert(crate::meta::entity_entry_views(orm_meta.entity_map@) =~= before.entity_map.update(
                i as int,
                (entity@, em@),
            ));
            proof {
                if before.entity(entity@)->Some_0.field(key@) is Some {
                    assert(em@ == old_em);
                    assert(before.entity_map[i as int] == (entity@, old_em));
                    assert(orm_meta@.entity_map =~= before.entity_map);
                }
            }
        },
        None => {},
    }
}

/// Adding key fields keeps the set of entity names.
proof fn lemma_add_key_keys(o: OrmMetaView, ent: Seq<char>, key: Seq<char>)
    requires
        o.entity(ent) is Some,
    ensures
        crate::assoc::keys_of(add_key(o, ent, key).entity_map) == crate::assoc::keys_of(o.entity_map),
        add_key(o, ent, key).entity_vec == o.entity_vec,
{
    lemma_index_of(crate::assoc::keys_of(o.entity_map), ent);
    let e = o.entity(ent)->Some_0;
    if e.field(key) is None {
        let i = index_of(crate::assoc::keys_of(o.entity_map), ent);
        assert(crate::assoc::keys_of(add_key(o, ent, key).entity_map) =~= crate::assoc::keys_of(o.entity_map));
    }
}

/// Builds the metadata of all entities declared by `items`, then adds the key
/// fields that relations name but entities do not declare.
pub fn visit_krate(items: &Vec<StructItem>) -> (r: OrmMeta)
    requires
        krate_ok(items@),
    ensures
        r@ == krate_meta(items@),
{
    let mut orm_meta = OrmMeta::default();
    let ghost b = base_meta(items@);
    assert(orm_meta@ == base_meta(items@.take(0))) by {
        assert(orm_meta@.entity_vec =~= Seq::empty());
        assert(orm_meta@.entity_map =~= Seq::empty());
    }
    let mut i: usize = 0;
    while i < items.len()
        invariant
            i <= items@.len(),
            forall|k: int| 0 <= k < items@.len() ==> struct_ok(#[trigger] items@[k]),
            orm_meta@ == base_meta(items@.take(i as int)),
        decreases items.len() - i,
    {
        assert(struct_ok(items@[i as int]));
        visit_struct(&items[i], &mut orm_meta);
        assert(items@.take(i + 1).drop_last() =~= items@.take(i as int));
        i += 1;
    }
    assert(items@.take(i as int) =~= items@);
    assert(orm_meta@ == b);

    // Add the key fields that the relations need on both of their ends.
    let ls = collect_links(&orm_meta);
    let ghost lv = links(b.entity_map);
    let mut k: usize = 0;
    while k < ls.len()
        invariant
            k <= ls@.len(),
            krate_ok(items@),
            b == base_meta(items@),
            lv == links(b.entity_map),
            ls@.len() == lv.len(),
            forall|j: int|
                0 <= j < ls@.len() ==> {
                    let l = #[trigger] lv[j];
                    &&& ls@[j].0@ == l.0
                    &&& ls@[j].1@ == l.1.refer_left()
                    &&& ls@[j].2@ == l.1.refer_entity()
                    &&& ls@[j].3@ == l.1.refer_right()
                },
            orm_meta@ == complete(b, lv.take(k as int)),
            crate::assoc::keys_of(orm_meta@.entity_map) == crate::assoc::keys_of(b.entity_map),
        decreases ls.len() - k,
    {
        let ghost l = lv[k as int];
        assert(b.entity(l.1.refer_entity()) is Some);
        proof {
            lemma_link_entity(b.entity_map, k as int);
        }
        assert(orm_meta@.entity(l.0) is Some);
        let ghost o1 = orm_meta@;
        add_key_field(&mut orm_meta, ls[k].0.as_str(), ls[k].1.as_str());
        proof {
            lemma_add_key_keys(o1, l.0, l.1.refer_left());
        }
        assert(orm_meta@.entity(l.1.refer_entity()) is Some);
        let ghost o2 = orm_meta@;
        add_key_field(&mut orm_meta, ls[k].2.as_str(), ls[k].3.as_str());
        proof {
            lemma_add_key_keys(o2, l.1.refer_entity(), l.1.refer_right());
        }
        assert(lv.take(k + 1).drop_last() =~= lv.take(k as int));
        k += 1;
    }
    assert(lv.take(k as int) =~= lv);
    orm_meta
}

/// The entity holding a relation link is one of the entities.
pub proof fn lemma_link_entity(em: Seq<(Seq<char>, EntityMetaView)>, j: int)
    requires
        0 <= j < links(em).len(),
    ensures
        index_of(crate::assoc::keys_of(em), links(em)[j].0) >= 0,
    decreases em.len(),
{
    let prev = links(em.drop_last());
    if j < prev.len() {
        lemma_link_entity(em.drop_last(), j);
        let k = index_of(crate::assoc::keys_of(em.drop_last()), links(em)[j].0);
        lemma_index_of(crate::assoc::keys_of(em.drop_last()), links(em)[j].0);
        assert(crate::assoc::keys_of(em)[k] == links(em)[j].0);
        lemma_index_of(crate::assoc::keys_of(em), links(em)[j].0);
    } else {
        lemma_entity_links_name(em.last().0, em.last().1.field_map, j - prev.len());
        assert(crate::assoc::keys_of(em)[em.len() - 1] == em.last().0);
        lemma_index_of(crate::assoc::keys_of(em), links(em)[j].0);
    }
}

/// Every link of one entity carries that entity's name.
proof fn lemma_entity_links_name(name: Seq<char>, fm: Seq<(Seq<char>, FieldMetaView)>, j: int)
    requires
        0 <= j < entity_links(name, fm).len(),
    ensures
        entity_links(name, fm)[j].0 == name,
    decreases fm.len(),
{
    if j < entity_links(name, fm.drop_last()).len() {
        lemma_entity_links_name(name, fm.drop_last(), j);
    }
}

// ---------------------------------------------------------------------------
// Checking declarations before they are read.

/// Whether the setting `name` can be read as a `bool`.
fn bool_setting_checked(attr: &Attr, Ghost(attrs): Ghost<Seq<MetaItem>>, name: &str) -> (r: bool)
    requires
        gathered(*attr, attrs),
    ensures
        r == bool_setting_ok(attrs, name@),
{
    proof {
        lemma_attr_queries(*attr, attrs, name@);
    }
    if !attr.get_checked(name) {
        return false;
    }
    match attr.get(name) {
        None => true,
        Some(v) => parse_bool(v).is_some(),
    }
}

/// Whether every name in `#[cascade(..)]` names a cascade.
fn cascades_checked(attr: &Attr, Ghost(attrs): Ghost<Seq<MetaItem>>) -> (r: bool)
    requires
        gathered(*attr, attrs),
    ensures
        r == cascades_ok(attrs),
{
    proof {
        lemma_attr_queries(*attr, attrs, "cascade"@);
    }
    let names = attr.get_values("cascade");
    let ghost ns = decl_values(attrs, "cascade"@);
    let mut i: usize = 0;
    while i < names.len()
        invariant
            i <= names@.len(),
            views(names@) == ns,
            ns == decl_values(attrs, "cascade"@),
            forall|j: int| 0 <= j < i ==> cascade_named(#[trigger] ns[j]) is Some,
        decreases names.len() - i,
    {
        assert(ns[i as int] == names@[i as int]@);
        if cascade_from_name(names[i].as_str()).is_none() {
            assert(cascade_named(ns[i as int]) is None);
            return false;
        }
        i += 1;
    }
    true
}

/// Whether every field of a declaration can be read.
fn fields_checked(fs: &Vec<StructField>) -> (r: bool)
    ensures
        r == forall|j: int| 0 <= j < fs@.len() ==> field_ok(#[trigger] fs@[j]),
{
    let mut i: usize = 0;
    while i < fs.len()
        invariant
            i <= fs@.len(),
            forall|j: int| 0 <= j < i ==> field_ok(#[trigger] fs@[j]),
        decreases fs.len() - i,
    {
        if !field_checked(&fs[i]) {
            return false;
        }
        i += 1;
    }
    true
}

/// Whether the field can be read (see `field_ok`).
pub fn field_checked(f: &StructField) -> (r: bool)
    ensures
        r == field_ok(*f),
{
    if !crate::attr::attrs_lits_checked(&f.attrs) {
        return false;
    }
    let ghost attrs = f.attrs@;
    let attr = visit_attrs(&f.attrs);
    let name = f.name.as_str();
    let ty = f.ty.as_str();
    if str_eq(name, "id") {
        return bool_setting_checked(&attr, Ghost(attrs), "auto");
    }
    if str_eq(ty, "i32") || str_eq(ty, "i64") || str_eq(ty, "u32") || str_eq(ty, "u64") {
        return bool_setting_checked(&attr, Ghost(attrs), "nullable");
    }
    if str_eq(ty, "String") {
        if !bool_setting_checked(&attr, Ghost(attrs), "nullable") {
            return false;
        }
        proof {
            lemma_attr_queries(attr, attrs, "len"@);
        }
        if !attr.get_checked("len") {
            return false;
        }
        return match attr.get("len") {
            None => true,
            Some(v) => parse_u64(v).is_some(),
        };
    }
    proof {
        lemma_attr_queries(attr, attrs, "cascade"@);
        lemma_attr_queries(attr, attrs, "fetch"@);
        lemma_attr_queries(attr, attrs, "refer"@);
        lemma_attr_queries(attr, attrs, "pointer"@);
        lemma_attr_queries(attr, attrs, "one_one"@);
        lemma_attr_queries(attr, attrs, "one_many"@);
    }
    if !cascades_checked(&attr, Ghost(attrs)) {
        return false;
    }
    if !attr.get_checked("fetch") {
        return false;
    }
    let fetch_ok_here = match attr.get("fetch") {
        None => true,
        Some(v) => fetch_from_name(v).is_some(),
    };
    if !fetch_ok_here {
        return false;
    }
    if attr.has("refer") {
        attr.get_values("refer").len() == 2
    } else if attr.has("pointer") {
        attr.get_values("pointer").len() <= 2
    } else if attr.has("one_one") {
        attr.get_values("one_one").len() <= 2
    } else if attr.has("one_many") {
        attr.get_values("one_many").len() <= 2
    } else {
        true
    }
}

/// Whether the struct declaration can be read (see `struct_ok`).
pub fn struct_checked(item: &StructItem) -> (r: bool)
    ensures
        r == struct_ok(*item),
{
    if !crate::attr::attrs_lits_checked(&item.attrs) {
        return false;
    }
    let ghost attrs = item.attrs@;
    let attr = visit_attrs(&item.attrs);
    proof {
        lemma_attr_queries(attr, attrs, "table"@);
        lemma_attr_queries(attr, attrs, "alias"@);
    }
    if !attr.get_checked("table") || !attr.get_checked("alias") {
        return false;
    }
    match &item.fields {
        None => true,
        Some(fs) => fields_checked(fs),
    }
}

/// The metadata of the declarations, where they can be read (see `krate_ok`):
/// `None` where a declaration's attributes cannot be read or a relation names
/// an entity that is not declared.
pub fn visit_krate_checked(items: &Vec<StructItem>) -> (r: Option<OrmMeta>)
    ensures
        r is Some <==> krate_ok(items@),
        r matches Some(m) ==> m@ == krate_meta(items@),
{
    let mut i: usize = 0;
    while i < items.len()
        invariant
            i <= items@.len(),
            forall|k: int| 0 <= k < i ==> struct_ok(#[trigger] items@[k]),
        decreases items.len() - i,
    {
        if !struct_checked(&items[i]) {
            return None;
        }
        i += 1;
    }
    let mut orm_meta = OrmMeta::default();
    let ghost b = base_meta(items@);
    assert(orm_meta@ == base_meta(items@.take(0))) by {
        assert(orm_meta@.entity_vec =~= Seq::empty());
        assert(orm_meta@.entity_map =~= Seq::empty());
    }
    let mut k: usize = 0;
    while k < items.len()
        invariant
            k <= items@.len(),
            forall|j: int| 0 <= j < items@.len() ==> struct_ok(#[trigger] items@[j]),
            orm_meta@ == base_meta(items@.take(k as int)),
        decreases items.len() - k,
    {
        assert(struct_ok(items@[k as int]));
        visit_struct(&items[k], &mut orm_meta);
        assert(items@.take(k + 1).drop_last() =~= items@.take(k as int));
        k += 1;
    }
    assert(items@.take(k as int) =~= items@);
    let ls = collect_links(&orm_meta);
    let ghost lv = links(b.entity_map);
    let mut j: usize = 0;
    while j < ls.len()
        invariant
            j <= ls@.len(),
            orm_meta@ == b,
            b == base_meta(items@),
            forall|j: int| 0 <= j < items@.len() ==> struct_ok(#[trigger] items@[j]),
            lv == links(b.entity_map),
            ls@.len() == lv.len(),
            forall|t: int|
                0 <= t < ls@.len() ==> {
                    let l = #[trigger] lv[t];
                    &&& ls@[t].0@ == l.0
                    &&& ls@[t].1@ == l.1.refer_left()
                    &&& ls@[t].2@ == l.1.refer_entity()
                    &&& ls@[t].3@ == l.1.refer_right()
                },
            forall|t: int| 0 <= t < j ==> b.entity((#[trigger] lv[t]).1.refer_entity()) is Some,
        decreases ls.len() - j,
    {
        assert(ls@[j as int].2@ == lv[j as int].1.refer_entity());
        if orm_meta.get_entity(ls[j].2.as_str()).is_none() {
            assert(!(b.entity(lv[j as int].1.refer_entity()) is Some));
            return None;
        }
        j += 1;
    }
    assert(krate_ok(items@));
    Some(visit_krate(items))
}

} // verus!
