//! Metadata of entities and their fields, and the SQL statements derived from it.
use vstd::prelude::*;

use crate::assoc::{find, index_of, keys_of, map_get, map_put, names_of, put};
use crate::text::{concat2, decimal, join, join_spec, owned, str_eq, u64_to_string, views};

verus! {

/// Operations that follow a relation to the entity on its other end.
#[derive(Debug, Clone, Copy, PartialEq, Eq, Structural)]
pub enum Cascade {
    NULL,
    Insert,
    Update,
    Delete,
}

/// When the entity on the other end of a relation is loaded.
#[derive(Debug, Clone, Copy, PartialEq, Eq, Structural)]
pub enum Fetch {
    Lazy,
    Eager,
}

/// Metadata of one field of an entity.
#[derive(Debug)]
pub enum FieldMeta {
    Id { auto: bool },
    Integer { field: String, column: String, number: String, nullable: bool },
    String { field: String, column: String, len: u64, nullable: bool },
    Refer {
        field: String,
        entity: String,
        left: String,
        right: String,
        cascades: Vec<Cascade>,
        fetch: Fetch,
    },
    Pointer {
        field: String,
        entity: String,
        left: String,
        right: String,
        cascades: Vec<Cascade>,
        fetch: Fetch,
    },
    OneToOne {
        field: String,
        entity: String,
        left: String,
        right: String,
        cascades: Vec<Cascade>,
        fetch: Fetch,
    },
    OneToMany {
        field: String,
        entity: String,
        left: String,
        right: String,
        cascades: Vec<Cascade>,
        fetch: Fetch,
    },
}

/// The four kinds of relation a field can hold.
#[derive(Debug, Clone, Copy, PartialEq, Eq, Structural)]
pub enum ReferKind {
    Refer,
    Pointer,
    OneToOne,
    OneToMany,
}

/// The mathematical value of a `FieldMeta`: its texts as character sequences.
pub enum FieldMetaView {
    Id { auto: bool },
    Integer { field: Seq<char>, column: Seq<char>, number: Seq<char>, nullable: bool },
    String { field: Seq<char>, column: Seq<char>, len: u64, nullable: bool },
    Relation {
        kind: ReferKind,
        field: Seq<char>,
        entity: Seq<char>,
        left: Seq<char>,
        right: Seq<char>,
        cascades: Seq<Cascade>,
        fetch: Fetch,
    },
}

impl View for FieldMeta {
    type V = FieldMetaView;

    open spec fn view(&self) -> FieldMetaView {
        match self {
            FieldMeta::Id { auto } => FieldMetaView::Id { auto: *auto },
            FieldMeta::Integer { field, column, number, nullable } => FieldMetaView::Integer {
                field: field@,
                column: column@,
                number: number@,
                nullable: *nullable,
            },
            FieldMeta::String { field, column, len, nullable } => FieldMetaView::String {
                field: field@,
                column: column@,
                len: *len,
                nullable: *nullable,
            },
            FieldMeta::Refer { field, entity, left, right, cascades, fetch } =>
                FieldMetaView::Relation {
                kind: ReferKind::Refer,
                field: field@,
                entity: entity@,
                left: left@,
                right: right@,
                cascades: cascades@,
                fetch: *fetch,
            },
            FieldMeta::Pointer { field, entity, left, right, cascades, fetch } =>
                FieldMetaView::Relation {
                kind: ReferKind::Pointer,
                field: field@,
                entity: entity@,
                left: left@,
                right: right@,
                cascades: cascades@,
                fetch: *fetch,
            },
            FieldMeta::OneToOne { field, entity, left, right, cascades, fetch } =>
                FieldMetaView::Relation {
                kind: ReferKind::OneToOne,
                field: field@,
                entity: entity@,
                left: left@,
                right: right@,
                cascades: cascades@,
                fetch: *fetch,
            },
            FieldMeta::OneToMany { field, entity, left, right, cascades, fetch } =>
                FieldMetaView::Relation {
                kind: ReferKind::OneToMany,
                field: field@,
                entity: entity@,
                left: left@,
                right: right@,
                cascades: cascades@,
                fetch: *fetch,
            },
        }
    }
}

impl FieldMetaView {
    pub open spec fn is_id(self) -> bool {
        self is Id
    }

    pub open spec fn is_normal(self) -> bool {
        self is Integer || self is String
    }

    pub open spec fn is_relation(self) -> bool {
        self is Relation
    }

    pub open spec fn is_kind(self, kind: ReferKind) -> bool {
        self matches FieldMetaView::Relation { kind: k, .. } && k == kind
    }

    /// The name of the field in the entity.
    pub open spec fn field_name(self) -> Seq<char> {
        match self {
            FieldMetaView::Id { .. } => "id"@,
            FieldMetaView::Integer { field, .. } => field,
            FieldMetaView::String { field, .. } => field,
            FieldMetaView::Relation { field, .. } => field,
        }
    }

    /// The column that stores a plain field.
    pub open spec fn column_name(self) -> Seq<char> {
        match self {
            FieldMetaView::Id { .. } => "id"@,
            FieldMetaView::Integer { column, .. } => column,
            FieldMetaView::String { column, .. } => column,
            FieldMetaView::Relation { .. } => Seq::empty(),
        }
    }

    /// The Rust type of the field's getter.
    pub open spec fn rust_type(self) -> Seq<char> {
        match self {
            FieldMetaView::Id { .. } => "u64"@,
            FieldMetaView::Integer { number, .. } => number,
            FieldMetaView::String { .. } => "String"@,
            FieldMetaView::Relation { entity, .. } => entity,
        }
    }

    /// The Rust type of the field's setter argument.
    pub open spec fn rust_type_set(self) -> Seq<char> {
        match self {
            FieldMetaView::String { .. } => "&str"@,
            FieldMetaView::Relation { entity, .. } => "&"@ + entity,
            _ => self.rust_type(),
        }
    }

    pub open spec fn refer_entity(self) -> Seq<char> {
        self->Relation_entity
    }

    pub open spec fn refer_left(self) -> Seq<char> {
        self->Relation_left
    }

    pub open spec fn refer_right(self) -> Seq<char> {
        self->Relation_right
    }

    pub open spec fn refer_cascades(self) -> Seq<Cascade> {
        self->Relation_cascades
    }

    pub open spec fn refer_fetch(self) -> Fetch {
        self->Relation_fetch
    }

    /// The relation's cascades hold `c`.
    pub open spec fn has_cascade(self, c: Cascade) -> bool {
        self.refer_cascades().contains(c)
    }

    /// The SQL type of an integer field's Rust type.
    pub open spec fn db_type_number(number: Seq<char>) -> Seq<char> {
        if number == "i32"@ || number == "u32"@ {
            "INTEGER"@
        } else {
            "BIGINT"@
        }
    }

    /// An integer field's Rust type is one that the column types cover.
    pub open spec fn valid_number(number: Seq<char>) -> bool {
        number == "i32"@ || number == "u32"@ || number == "i64"@ || number == "u64"@
    }

    /// A plain field can be written as a column definition.
    pub open spec fn has_db_type(self) -> bool {
        match self {
            FieldMetaView::Id { .. } => true,
            FieldMetaView::Integer { number, .. } => Self::valid_number(number),
            FieldMetaView::String { .. } => true,
            FieldMetaView::Relation { .. } => false,
        }
    }

    /// The column definition of a plain field in `CREATE TABLE`.
    pub open spec fn db_type(self) -> Seq<char> {
        match self {
            FieldMetaView::Id { auto } => "`id` BIGINT PRIMARY KEY NOT NULL"@ + (if auto {
                " AUTO_INCREMENT"@
            } else {
                ""@
            }),
            FieldMetaView::Integer { column, number, nullable, .. } => "`"@ + column + "` "@
                + Self::db_type_number(number) + (if nullable {
                ""@
            } else {
                " NOT NULL"@
            }),
            FieldMetaView::String { column, len, nullable, .. } => "`"@ + column
                + "` VARCHAR("@ + decimal(len as nat) + ")"@ + (if nullable {
                ""@
            } else {
                " NOT NULL"@
            }),
            FieldMetaView::Relation { .. } => Seq::empty(),
        }
    }
}

impl FieldMeta {
    pub fn new_pkey(auto: bool) -> (r: Self)
        ensures
            r@ == (FieldMetaView::Id { auto }),
    {
        FieldMeta::Id { auto: auto }
    }

    pub fn new_integer(field: &str, column: &str, number: &str, nullable: bool) -> (r: Self)
        ensures
            r@ == (FieldMetaView::Integer {
                field: field@,
                column: column@,
                number: number@,
                nullable,
            }),
    {
        FieldMeta::Integer {
            field: owned(field),
            column: owned(column),
            number: owned(number),
            nullable: nullable,
        }
    }

    pub fn new_string(field: &str, column: &str, len: u64, nullable: bool) -> (r: Self)
        ensures
            r@ == (FieldMetaView::String { field: field@, column: column@, len, nullable }),
    {
        FieldMeta::String {
            field: owned(field),
            column: owned(column),
            len: len,
            nullable: nullable,
        }
    }

    /// The key column that a relation adds to an entity: a nullable `u64`.
    pub fn new_refer_id(field: &str, column: &str) -> (r: Self)
        ensures
            r@ == (FieldMetaView::Integer {
                field: field@,
                column: column@,
                number: "u64"@,
                nullable: true,
            }),
    {
        FieldMeta::Integer {
            field: owned(field),
            column: owned(column),
            number: owned("u64"),
            nullable: true,
        }
    }

    pub fn new_refer(
        field: &str,
        entity: &str,
        left: &str,
        right: &str,
        cascades: Vec<Cascade>,
        fetch: Fetch,
    ) -> (r: Self)
        ensures
            r@ == (FieldMetaView::Relation {
                kind: ReferKind::Refer,
                field: field@,
                entity: entity@,
                left: left@,
                right: right@,
                cascades: cascades@,
                fetch,
            }),
    {
        FieldMeta::Refer {
            field: owned(field),
            entity: owned(entity),
            left: owned(left),
            right: owned(right),
            cascades: cascades,
            fetch: fetch,
        }
    }

    pub fn new_pointer(
        field: &str,
        entity: &str,
        left: &str,
        right: &str,
        cascades: Vec<Cascade>,
        fetch: Fetch,
    ) -> (r: Self)
        ensures
            r@ == (FieldMetaView::Relation {
                kind: ReferKind::Pointer,
                field: field@,
                entity: entity@,
                left: left@,
                right: right@,
                cascades: cascades@,
                fetch,
            }),
    {
        FieldMeta::Pointer {
            field: owned(field),
            entity: owned(entity),
            left: owned(left),
            right: owned(right),
            cascades: cascades,
            fetch: fetch,
        }
    }

    pub fn new_one_one(
        field: &str,
        entity: &str,
        left: &str,
        right: &str,
        cascades: Vec<Cascade>,
        fetch: Fetch,
    ) -> (r: Self)
        ensures
            r@ == (FieldMetaView::Relation {
                kind: ReferKind::OneToOne,
                field: field@,
                entity: entity@,
                left: left@,
                right: right@,
                cascades: cascades@,
                fetch,
            }),
    {
        FieldMeta::OneToOne {
            field: owned(field),
            entity: owned(entity),
            left: owned(left),
            right: owned(right),
            cascades: cascades,
            fetch: fetch,
        }
    }

    pub fn new_one_many(
        field: &str,
        entity: &str,
        left: &str,
        right: &str,
        cascades: Vec<Cascade>,
        fetch: Fetch,
    ) -> (r: Self)
        ensures
            r@ == (FieldMetaView::Relation {
                kind: ReferKind::OneToMany,
                field: field@,
                entity: entity@,
                left: left@,
                right: right@,
                cascades: cascades@,
                fetch,
            }),
    {
        FieldMeta::OneToMany {
            field: owned(field),
            entity: owned(entity),
            left: owned(left),
            right: owned(right),
            cascades: cascades,
            fetch: fetch,
        }
    }
}

impl FieldMeta {
    /// Whether the primary key is generated by the database.
    pub fn is_auto(&self) -> (r: bool)
        requires
            self@ is Id,
        ensures
            r == self@->Id_auto,
    {
        match self {
            FieldMeta::Id { auto } => *auto,
            _ => false,
        }
    }

    pub fn get_column_name(&self) -> (r: String)
        requires
            self@.is_id() || self@.is_normal(),
        ensures
            r@ == self@.column_name(),
    {
        match self {
            FieldMeta::Id { .. } => owned("id"),
            FieldMeta::Integer { column, .. } => column.clone(),
            FieldMeta::String { column, .. } => column.clone(),
            _ => String::new(),
        }
    }

    pub fn get_field_name(&self) -> (r: String)
        ensures
            r@ == self@.field_name(),
    {
        match self {
            FieldMeta::Id { .. } => owned("id"),
            FieldMeta::Integer { field, .. } => field.clone(),
            FieldMeta::String { field, .. } => field.clone(),
            FieldMeta::Refer { field, .. } => field.clone(),
            FieldMeta::Pointer { field, .. } => field.clone(),
            FieldMeta::OneToOne { field, .. } => field.clone(),
            FieldMeta::OneToMany { field, .. } => field.clone(),
        }
    }

    pub fn get_type_name(&self) -> (r: String)
        ensures
            r@ == self@.rust_type(),
    {
        match self {
            FieldMeta::Id { .. } => owned("u64"),
            FieldMeta::Integer { number, .. } => number.clone(),
            FieldMeta::String { .. } => owned("String"),
            FieldMeta::Refer { entity, .. } => entity.clone(),
            FieldMeta::Pointer { entity, .. } => entity.clone(),
            FieldMeta::OneToOne { entity, .. } => entity.clone(),
            FieldMeta::OneToMany { entity, .. } => entity.clone(),
        }
    }

    fn get_db_type_number(number: &str) -> (r: String)
        requires
            FieldMetaView::valid_number(number@),
        ensures
            r@ == FieldMetaView::db_type_number(number@),
    {
        if str_eq(number, "i32") || str_eq(number, "u32") {
            owned("INTEGER")
        } else {
            owned("BIGINT")
        }
    }

    /// The column definition of a plain field.
    pub fn get_db_type(&self) -> (r: String)
        requires
            self@.has_db_type(),
        ensures
            r@ == self@.db_type(),
    {
        match self {
            FieldMeta::Id { auto } => {
                let mut r = owned("`id` BIGINT PRIMARY KEY NOT NULL");
                if *auto {
                    r.append(" AUTO_INCREMENT");
                } else {
                    r.append("");
                }
                r
            },
            FieldMeta::Integer { column, number, nullable, .. } => {
                let mut r = owned("`");
                r.append(column.as_str());
                r.append("` ");
                let t = Self::get_db_type_number(number.as_str());
                r.append(t.as_str());
                if *nullable {
                    r.append("");
                } else {
                    r.append(" NOT NULL");
                }
                r
            },
            FieldMeta::String { column, len, nullable, .. } => {
                let mut r = owned("`");
                r.append(column.as_str());
                r.append("` VARCHAR(");
                let n = u64_to_string(*len);
                r.append(n.as_str());
                r.append(")");
                if *nullable {
                    r.append("");
                } else {
                    r.append(" NOT NULL");
                }
                r
            },
            _ => String::new(),
        }
    }

    pub fn get_type_name_set(&self) -> (r: String)
        ensures
            r@ == self@.rust_type_set(),
    {
        match self {
            FieldMeta::Id { .. } => self.get_type_name(),
            FieldMeta::Integer { .. } => self.get_type_name(),
            FieldMeta::String { .. } => owned("&str"),
            FieldMeta::Refer { entity, .. } => concat2("&", entity.as_str()),
            FieldMeta::Pointer { entity, .. } => concat2("&", entity.as_str()),
            FieldMeta::OneToOne { entity, .. } => concat2("&", entity.as_str()),
            FieldMeta::OneToMany { entity, .. } => concat2("&", entity.as_str()),
        }
    }

    pub fn is_type_id(&self) -> (r: bool)
        ensures
            r == self@.is_id(),
    {
        match self {
            FieldMeta::Id { .. } => true,
            _ => false,
        }
    }

    pub fn is_type_normal(&self) -> (r: bool)
        ensures
            r == self@.is_normal(),
    {
        match self {
            FieldMeta::Integer { .. } => true,
            FieldMeta::String { .. } => true,
            _ => false,
        }
    }

    pub fn is_type_refer(&self) -> (r: bool)
        ensures
            r == self@.is_relation(),
    {
        match self {
            FieldMeta::Refer { .. } => true,
            FieldMeta::Pointer { .. } => true,
            FieldMeta::OneToOne { .. } => true,
            FieldMeta::OneToMany { .. } => true,
            _ => false,
        }
    }

    /// Whether the field is a relation of the given kind.
    pub fn is_refer_kind(&self, kind: ReferKind) -> (r: bool)
        ensures
            r == self@.is_kind(kind),
    {
        match self {
            FieldMeta::Refer { .. } => kind == ReferKind::Refer,
            FieldMeta::Pointer { .. } => kind == ReferKind::Pointer,
            FieldMeta::OneToOne { .. } => kind == ReferKind::OneToOne,
            FieldMeta::OneToMany { .. } => kind == ReferKind::OneToMany,
            _ => false,
        }
    }

    pub fn is_refer_pointer(&self) -> (r: bool)
        ensures
            r == self@.is_kind(ReferKind::Pointer),
    {
        self.is_refer_kind(ReferKind::Pointer)
    }

    pub fn is_refer_one_one(&self) -> (r: bool)
        ensures
            r == self@.is_kind(ReferKind::OneToOne),
    {
        self.is_refer_kind(ReferKind::OneToOne)
    }

    pub fn is_refer_one_many(&self) -> (r: bool)
        ensures
            r == self@.is_kind(ReferKind::OneToMany),
    {
        self.is_refer_kind(ReferKind::OneToMany)
    }

    pub fn get_refer_entity(&self) -> (r: String)
        requires
            self@.is_relation(),
        ensures
            r@ == self@.refer_entity(),
    {
        match self {
            FieldMeta::Refer { entity, .. } => entity.clone(),
            FieldMeta::Pointer { entity, .. } => entity.clone(),
            FieldMeta::OneToOne { entity, .. } => entity.clone(),
            FieldMeta::OneToMany { entity, .. } => entity.clone(),
            _ => String::new(),
        }
    }

    pub fn get_refer_cascades(&self) -> (r: &Vec<Cascade>)
        requires
            self@.is_relation(),
        ensures
            r@ == self@.refer_cascades(),
    {
        match self {
            FieldMeta::Refer { cascades, .. } => cascades,
            FieldMeta::Pointer { cascades, .. } => cascades,
            FieldMeta::OneToOne { cascades, .. } => cascades,
            FieldMeta::OneToMany { cascades, .. } => cascades,
            _ => vstd::pervasive::unreached(),
        }
    }

    pub fn get_refer_fetch(&self) -> (r: Fetch)
        requires
            self@.is_relation(),
        ensures
            r == self@.refer_fetch(),
    {
        match self {
            FieldMeta::Refer { fetch, .. } => *fetch,
            FieldMeta::Pointer { fetch, .. } => *fetch,
            FieldMeta::OneToOne { fetch, .. } => *fetch,
            FieldMeta::OneToMany { fetch, .. } => *fetch,
            _ => Fetch::Lazy,
        }
    }

    pub fn get_refer_left(&self) -> (r: String)
        requires
            self@.is_relation(),
        ensures
            r@ == self@.refer_left(),
    {
        match self {
            FieldMeta::Refer { left, .. } => left.clone(),
            FieldMeta::Pointer { left, .. } => left.clone(),
            FieldMeta::OneToOne { left, .. } => left.clone(),
            FieldMeta::OneToMany { left, .. } => left.clone(),
            _ => String::new(),
        }
    }

    pub fn get_refer_right(&self) -> (r: String)
        requires
            self@.is_relation(),
        ensures
            r@ == self@.refer_right(),
    {
        match self {
            FieldMeta::Refer { right, .. } => right.clone(),
            FieldMeta::Pointer { right, .. } => right.clone(),
            FieldMeta::OneToOne { right, .. } => right.clone(),
            FieldMeta::OneToMany { right, .. } => right.clone(),
            _ => String::new(),
        }
    }

    /// The key fields that join a relation: (this side, other side).
    pub fn get_refer_lr(&self) -> (r: (String, String))
        requires
            self@.is_relation(),
        ensures
            r.0@ == self@.refer_left(),
            r.1@ == self@.refer_right(),
    {
        (self.get_refer_left(), self.get_refer_right())
    }

    fn has_cascade(&self, c: Cascade) -> (r: bool)
        requires
            self@.is_relation(),
        ensures
            r == self@.has_cascade(c),
    {
        let cascades = self.get_refer_cascades();
        let mut i: usize = 0;
        while i < cascades.len()
            invariant
                i <= cascades@.len(),
                cascades@ == self@.refer_cascades(),
                forall|j: int| 0 <= j < i ==> cascades@[j] != c,
            decreases cascades.len() - i,
        {
            if cascades[i] == c {
                assert(cascades@[i as int] == c);
                return true;
            }
            i += 1;
        }
        false
    }

    pub fn has_cascade_insert(&self) -> (r: bool)
        requires
            self@.is_relation(),
        ensures
            r == self@.has_cascade(Cascade::Insert),
    {
        self.has_cascade(Cascade::Insert)
    }

    pub fn has_cascade_update(&self) -> (r: bool)
        requires
            self@.is_relation(),
        ensures
            r == self@.has_cascade(Cascade::Update),
    {
        self.has_cascade(Cascade::Update)
    }

    pub fn has_cascade_delete(&self) -> (r: bool)
        requires
            self@.is_relation(),
        ensures
            r == self@.has_cascade(Cascade::Delete),
    {
        self.has_cascade(Cascade::Delete)
    }

    pub fn is_fetch_eager(&self) -> (r: bool)
        requires
            self@.is_relation(),
        ensures
            r == (self@.refer_fetch() == Fetch::Eager),
    {
        self.get_refer_fetch() == Fetch::Eager
    }
}

/// Which fields a selection keeps.
#[derive(Debug, Clone, Copy, PartialEq, Eq, Structural)]
pub enum FieldSel {
    /// Integer and string fields.
    Normal,
    /// Every field that is not a relation (the key and the plain fields).
    NonRefer,
    /// Relations of one kind.
    Kind(ReferKind),
}

impl FieldSel {
    pub open spec fn holds(self, f: FieldMetaView) -> bool {
        match self {
            FieldSel::Normal => f.is_normal(),
            FieldSel::NonRefer => !f.is_relation(),
            FieldSel::Kind(k) => f.is_kind(k),
        }
    }
}

/// The fields of `fs` that `sel` keeps, in order.
pub open spec fn select_fields(fs: Seq<FieldMetaView>, sel: FieldSel) -> Seq<FieldMetaView>
    decreases fs.len(),
{
    if fs.len() == 0 {
        Seq::empty()
    } else if sel.holds(fs.last()) {
        select_fields(fs.drop_last(), sel).push(fs.last())
    } else {
        select_fields(fs.drop_last(), sel)
    }
}

/// The views of a sequence of field references.
pub open spec fn ref_views(s: Seq<&FieldMeta>) -> Seq<FieldMetaView> {
    s.map_values(|f: &FieldMeta| f@)
}

/// Metadata of one entity: its names, its fields in declaration order, and the
/// table from field name to field metadata.
#[derive(Debug)]
pub struct EntityMeta {
    pub entity_name: String,
    pub table_name: String,
    pub alias: String,
    pub field_vec: Vec<String>,
    pub field_map: Vec<(String, FieldMeta)>,
}

pub struct EntityMetaView {
    pub entity_name: Seq<char>,
    pub table_name: Seq<char>,
    pub alias: Seq<char>,
    pub field_vec: Seq<Seq<char>>,
    pub field_map: Seq<(Seq<char>, FieldMetaView)>,
}

pub open spec fn field_entry_views(m: Seq<(String, FieldMeta)>) -> Seq<(Seq<char>, FieldMetaView)> {
    m.map_values(|p: (String, FieldMeta)| (p.0@, p.1@))
}

impl View for EntityMeta {
    type V = EntityMetaView;

    open spec fn view(&self) -> EntityMetaView {
        EntityMetaView {
            entity_name: self.entity_name@,
            table_name: self.table_name@,
            alias: self.alias@,
            field_vec: views(self.field_vec@),
            field_map: field_entry_views(self.field_map@),
        }
    }
}

impl EntityMetaView {
    /// The metadata of the field named `name`.
    pub open spec fn field(self, name: Seq<char>) -> Option<FieldMetaView> {
        map_get(self.field_map, name)
    }

    /// Every field in the declaration order has metadata.
    pub open spec fn fields_known(self) -> bool {
        forall|i: int| 0 <= i < self.field_vec.len() ==> (#[trigger] self.field(self.field_vec[i])) is Some
    }

    /// The metadata of the fields, in declaration order.
    pub open spec fn fields(self) -> Seq<FieldMetaView> {
        self.field_vec.map_values(|n: Seq<char>| self.field(n).unwrap())
    }

    pub open spec fn normal_fields(self) -> Seq<FieldMetaView> {
        select_fields(self.fields(), FieldSel::Normal)
    }

    pub open spec fn non_refer_fields(self) -> Seq<FieldMetaView> {
        select_fields(self.fields(), FieldSel::NonRefer)
    }

    /// The columns of the plain fields, in declaration order.
    pub open spec fn columns(self) -> Seq<Seq<char>> {
        self.normal_fields().map_values(|f: FieldMetaView| f.column_name())
    }

    /// The primary key is generated by the database.
    pub open spec fn id_auto(self) -> bool {
        self.field("id"@).unwrap()->Id_auto
    }

    /// The fields that `CREATE TABLE` lists can all be written as columns.
    pub open spec fn columns_typed(self) -> bool {
        forall|i: int|
            0 <= i < self.non_refer_fields().len() ==> (#[trigger] self.non_refer_fields()[i]).has_db_type()
    }

    pub open spec fn create_table_sql(self) -> Seq<char> {
        "CREATE TABLE IF NOT EXISTS `"@ + self.table_name + "`("@ + join_spec(
            self.non_refer_fields().map_values(|f: FieldMetaView| f.db_type()),
            ", "@,
        ) + ")"@
    }

    pub open spec fn drop_table_sql(self) -> Seq<char> {
        "DROP TABLE IF EXISTS `"@ + self.table_name + "`"@
    }

    pub open spec fn insert_sql(self) -> Seq<char> {
        "INSERT INTO `"@ + self.table_name + "`("@ + join_spec(self.columns(), ", "@)
            + ") VALUES ("@ + join_spec(
            self.columns().map_values(|c: Seq<char>| ":"@ + c),
            ", "@,
        ) + ")"@
    }

    pub open spec fn update_sql(self) -> Seq<char> {
        "UPDATE `"@ + self.table_name + "` SET "@ + join_spec(
            self.columns().map_values(|c: Seq<char>| c + " = :"@ + c),
            ", "@,
        ) + " where id = :id"@
    }

    pub open spec fn get_sql(self) -> Seq<char> {
        "SELECT * FROM `"@ + self.table_name + "` WHERE id = :id"@
    }

    pub open spec fn delete_sql(self) -> Seq<char> {
        "DELETE FROM `"@ + self.table_name + "` WHERE id = :id"@
    }
}

pub proof fn lemma_field_keys(m: Seq<(String, FieldMeta)>)
    ensures
        keys_of(field_entry_views(m)) == names_of(m),
{
    assert(keys_of(field_entry_views(m)) =~= names_of(m));
}

impl Default for EntityMeta {
    fn default() -> (r: Self)
        ensures
            r@.entity_name.len() == 0,
            r@.table_name.len() == 0,
            r@.alias.len() == 0,
            r@.field_vec.len() == 0,
            r@.field_map.len() == 0,
    {
        EntityMeta {
            entity_name: String::new(),
            table_name: String::new(),
            alias: String::new(),
            field_vec: Vec::new(),
            field_map: Vec::new(),
        }
    }
}

impl EntityMeta {
    /// The metadata of the field named `name`.
    pub fn get_field(&self, name: &str) -> (r: Option<&FieldMeta>)
        ensures
            r matches Some(f) ==> self@.field(name@) == Some(f@),
            r is None ==> self@.field(name@) is None,
    {
        proof {
            lemma_field_keys(self.field_map@);
        }
        match find(&self.field_map, name) {
            Some(i) => Some(&self.field_map[i].1),
            None => None,
        }
    }

    pub fn is_id_auto(&self) -> (r: bool)
        requires
            self@.field("id"@) matches Some(f) && f is Id,
        ensures
            r == self@.id_auto(),
    {
        let f = self.get_field("id");
        match f {
            Some(f) => f.is_auto(),
            None => false,
        }
    }

    pub fn get_fields(&self) -> (r: Vec<&FieldMeta>)
        requires
            self@.fields_known(),
        ensures
            ref_views(r@) == self@.fields(),
    {
        let mut r: Vec<&FieldMeta> = Vec::new();
        let mut i: usize = 0;
        while i < self.field_vec.len()
            invariant
                i <= self.field_vec@.len(),
                self@.fields_known(),
                r@.len() == i,
                ref_views(r@) == self@.fields().take(i as int),
            decreases self.field_vec.len() - i,
        {
            let name = self.field_vec[i].as_str();
            assert(self@.field_vec[i as int] == name@);
            assert(self@.field(self@.field_vec[i as int]) is Some);
            match self.get_field(name) {
                Some(f) => {
                    assert(self@.fields()[i as int] == f@);
                    let ghost before = r@;
                    r.push(f);
                    assert(forall|j: int| 0 <= j < i ==> r@[j] == before[j]);
                    assert(forall|j: int| 0 <= j < i ==> ref_views(before)[j] == self@.fields()[j]);
                    assert(ref_views(r@) =~= self@.fields().take(i + 1));
                },
                None => {},
            }
            i += 1;
        }
        assert(self@.fields().take(i as int) =~= self@.fields());
        r
    }

    fn select(fields: Vec<&FieldMeta>, sel: FieldSel) -> (r: Vec<&FieldMeta>)
        ensures
            ref_views(r@) == select_fields(ref_views(fields@), sel),
    {
        let ghost fs = ref_views(fields@);
        let mut r: Vec<&FieldMeta> = Vec::new();
        let mut i: usize = 0;
        while i < fields.len()
            invariant
                i <= fields@.len(),
                fs == ref_views(fields@),
                ref_views(r@) == select_fields(fs.take(i as int), sel),
            decreases fields.len() - i,
        {
            let f = fields[i];
            let keep = match sel {
                FieldSel::Normal => f.is_type_normal(),
                FieldSel::NonRefer => !f.is_type_refer(),
                FieldSel::Kind(k) => f.is_refer_kind(k),
            };
            assert(fs.take(i + 1).drop_last() =~= fs.take(i as int));
            assert(fs.take(i + 1).last() == f@);
            if keep {
                r.push(f);
                assert(ref_views(r@) =~= select_fields(fs.take(i as int), sel).push(f@));
            }
            i += 1;
        }
        assert(fs.take(i as int) =~= fs);
        r
    }

    pub fn get_normal_fields(&self) -> (r: Vec<&FieldMeta>)
        requires
            self@.fields_known(),
        ensures
            ref_views(r@) == self@.normal_fields(),
    {
        Self::select(self.get_fields(), FieldSel::Normal)
    }

    pub fn get_non_refer_fields(&self) -> (r: Vec<&FieldMeta>)
        requires
            self@.fields_known(),
        ensures
            ref_views(r@) == self@.non_refer_fields(),
    {
        Self::select(self.get_fields(), FieldSel::NonRefer)
    }

    pub fn get_refer_fields(&self) -> (r: Vec<&FieldMeta>)
        requires
            self@.fields_known(),
        ensures
            ref_views(r@) == select_fields(self@.fields(), FieldSel::Kind(ReferKind::Refer)),
    {
        Self::select(self.get_fields(), FieldSel::Kind(ReferKind::Refer))
    }

    pub fn get_pointer_fields(&self) -> (r: Vec<&FieldMeta>)
        requires
            self@.fields_known(),
        ensures
            ref_views(r@) == select_fields(self@.fields(), FieldSel::Kind(ReferKind::Pointer)),
    {
        Self::select(self.get_fields(), FieldSel::Kind(ReferKind::Pointer))
    }

    pub fn get_one_one_fields(&self) -> (r: Vec<&FieldMeta>)
        requires
            self@.fields_known(),
        ensures
            ref_views(r@) == select_fields(self@.fields(), FieldSel::Kind(ReferKind::OneToOne)),
    {
        Self::select(self.get_fields(), FieldSel::Kind(ReferKind::OneToOne))
    }

    pub fn get_one_many_fields(&self) -> (r: Vec<&FieldMeta>)
        requires
            self@.fields_known(),
        ensures
            ref_views(r@) == select_fields(self@.fields(), FieldSel::Kind(ReferKind::OneToMany)),
    {
        Self::select(self.get_fields(), FieldSel::Kind(ReferKind::OneToMany))
    }
}

/// Every field that a selection keeps satisfies it.
pub proof fn lemma_select_holds(fs: Seq<FieldMetaView>, sel: FieldSel)
    ensures
        forall|i: int| 0 <= i < select_fields(fs, sel).len() ==> sel.holds(#[trigger] select_fields(fs, sel)[i]),
        select_fields(fs, sel).len() <= fs.len(),
    decreases fs.len(),
{
    if fs.len() > 0 {
        lemma_select_holds(fs.drop_last(), sel);
    }
}

impl EntityMeta {
    /// The columns of the plain fields, in declaration order.
    pub fn get_columns(&self) -> (r: Vec<String>)
        requires
            self@.fields_known(),
        ensures
            views(r@) == self@.columns(),
    {
        let fields = self.get_normal_fields();
        let ghost fs = self@.normal_fields();
        proof {
            lemma_select_holds(self@.fields(), FieldSel::Normal);
        }
        let mut r: Vec<String> = Vec::new();
        let mut i: usize = 0;
        while i < fields.len()
            invariant
                i <= fields@.len(),
                fs == ref_views(fields@),
                fs == self@.normal_fields(),
                forall|j: int| 0 <= j < fs.len() ==> (#[trigger] fs[j]).is_normal(),
                r@.len() == i,
                forall|j: int| 0 <= j < i ==> #[trigger] r@[j]@ == fs[j].column_name(),
            decreases fields.len() - i,
        {
            assert(fs[i as int] == fields@[i as int]@);
            let c = fields[i].get_column_name();
            r.push(c);
            i += 1;
        }
        assert(views(r@) =~= fs.map_values(|f: FieldMetaView| f.column_name()));
        r
    }

    pub fn sql_create_table(&self) -> (r: String)
        requires
            self@.fields_known(),
            self@.columns_typed(),
        ensures
            r@ == self@.create_table_sql(),
    {
        let fields = self.get_non_refer_fields();
        let ghost fs = self@.non_refer_fields();
        let mut defs: Vec<String> = Vec::new();
        let mut i: usize = 0;
        while i < fields.len()
            invariant
                i <= fields@.len(),
                fs == ref_views(fields@),
                fs == self@.non_refer_fields(),
                self@.columns_typed(),
                defs@.len() == i,
                forall|j: int| 0 <= j < i ==> #[trigger] defs@[j]@ == fs[j].db_type(),
            decreases fields.len() - i,
        {
            assert(fs[i as int] == fields@[i as int]@);
            let d = fields[i].get_db_type();
            defs.push(d);
            i += 1;
        }
        assert(views(defs@) =~= fs.map_values(|f: FieldMetaView| f.db_type()));
        let body = join(&defs, ", ");
        let mut r = owned("CREATE TABLE IF NOT EXISTS `");
        r.append(self.table_name.as_str());
        r.append("`(");
        r.append(body.as_str());
        r.append(")");
        r
    }

    pub fn sql_drop_table(&self) -> (r: String)
        ensures
            r@ == self@.drop_table_sql(),
    {
        let mut r = owned("DROP TABLE IF EXISTS `");
        r.append(self.table_name.as_str());
        r.append("`");
        r
    }

    pub fn sql_insert(&self) -> (r: String)
        requires
            self@.fields_known(),
        ensures
            r@ == self@.insert_sql(),
    {
        let columns = self.get_columns();
        let ghost cs = self@.columns();
        let mut values: Vec<String> = Vec::new();
        let mut i: usize = 0;
        while i < columns.len()
            invariant
                i <= columns@.len(),
                views(columns@) == cs,
                values@.len() == i,
                forall|j: int| 0 <= j < i ==> #[trigger] values@[j]@ == ":"@ + cs[j],
            decreases columns.len() - i,
        {
            let v = concat2(":", columns[i].as_str());
            values.push(v);
            i += 1;
        }
        assert(views(values@) =~= cs.map_values(|c: Seq<char>| ":"@ + c));
        let cols = join(&columns, ", ");
        let vals = join(&values, ", ");
        let mut r = owned("INSERT INTO `");
        r.append(self.table_name.as_str());
        r.append("`(");
        r.append(cols.as_str());
        r.append(") VALUES (");
        r.append(vals.as_str());
        r.append(")");
        r
    }

    pub fn sql_update(&self) -> (r: String)
        requires
            self@.fields_known(),
        ensures
            r@ == self@.update_sql(),
    {
        let columns = self.get_columns();
        let ghost cs = self@.columns();
        let mut pairs: Vec<String> = Vec::new();
        let mut i: usize = 0;
        while i < columns.len()
            invariant
                i <= columns@.len(),
                views(columns@) == cs,
                pairs@.len() == i,
                forall|j: int| 0 <= j < i ==> #[trigger] pairs@[j]@ == cs[j] + " = :"@ + cs[j],
            decreases columns.len() - i,
        {
            let mut p = concat2(columns[i].as_str(), " = :");
            p.append(columns[i].as_str());
            pairs.push(p);
            i += 1;
        }
        assert(views(pairs@) =~= cs.map_values(|c: Seq<char>| c + " = :"@ + c));
        let body = join(&pairs, ", ");
        let mut r = owned("UPDATE `");
        r.append(self.table_name.as_str());
        r.append("` SET ");
        r.append(body.as_str());
        r.append(" where id = :id");
        r
    }

    pub fn sql_get(&self) -> (r: String)
        ensures
            r@ == self@.get_sql(),
    {
        let mut r = owned("SELECT * FROM `");
        r.append(self.table_name.as_str());
        r.append("` WHERE id = :id");
        r
    }

    pub fn sql_delete(&self) -> (r: String)
        ensures
            r@ == self@.delete_sql(),
    {
        let mut r = owned("DELETE FROM `");
        r.append(self.table_name.as_str());
        r.append("` WHERE id = :id");
        r
    }
}

/// Metadata of all entities: their names in declaration order, and the table
/// from entity name to entity metadata.
#[derive(Debug)]
pub struct OrmMeta {
    pub entity_vec: Vec<String>,
    pub entity_map: Vec<(String, EntityMeta)>,
}

pub struct OrmMetaView {
    pub entity_vec: Seq<Seq<char>>,
    pub entity_map: Seq<(Seq<char>, EntityMetaView)>,
}

pub open spec fn entity_entry_views(m: Seq<(String, EntityMeta)>) -> Seq<(Seq<char>, EntityMetaView)> {
    m.map_values(|p: (String, EntityMeta)| (p.0@, p.1@))
}

impl View for OrmMeta {
    type V = OrmMetaView;

    open spec fn view(&self) -> OrmMetaView {
        OrmMetaView { entity_vec: views(self.entity_vec@), entity_map: entity_entry_views(self.entity_map@) }
    }
}

/// The views of a sequence of entity references.
pub open spec fn entity_ref_views(s: Seq<&EntityMeta>) -> Seq<EntityMetaView> {
    s.map_values(|e: &EntityMeta| e@)
}

impl OrmMetaView {
    pub open spec fn entity(self, name: Seq<char>) -> Option<EntityMetaView> {
        map_get(self.entity_map, name)
    }

    /// Every declared entity has metadata.
    pub open spec fn entities_known(self) -> bool {
        forall|i: int| 0 <= i < self.entity_vec.len() ==> (#[trigger] self.entity(self.entity_vec[i])) is Some
    }

    /// The metadata of the entities, in declaration order.
    pub open spec fn entities(self) -> Seq<EntityMetaView> {
        self.entity_vec.map_values(|n: Seq<char>| self.entity(n).unwrap())
    }
}

pub proof fn lemma_entity_keys(m: Seq<(String, EntityMeta)>)
    ensures
        keys_of(entity_entry_views(m)) == names_of(m),
{
    assert(keys_of(entity_entry_views(m)) =~= names_of(m));
}

impl Default for OrmMeta {
    fn default() -> (r: Self)
        ensures
            r@.entity_vec.len() == 0,
            r@.entity_map.len() == 0,
    {
        OrmMeta { entity_vec: Vec::new(), entity_map: Vec::new() }
    }
}

impl OrmMeta {
    /// The metadata of the entity named `name`.
    pub fn get_entity(&self, name: &str) -> (r: Option<&EntityMeta>)
        ensures
            r matches Some(e) ==> self@.entity(name@) == Some(e@),
            r is None ==> self@.entity(name@) is None,
    {
        proof {
            lemma_entity_keys(self.entity_map@);
        }
        match find(&self.entity_map, name) {
            Some(i) => Some(&self.entity_map[i].1),
            None => None,
        }
    }

    pub fn get_entities(&self) -> (r: Vec<&EntityMeta>)
        requires
            self@.entities_known(),
        ensures
            entity_ref_views(r@) == self@.entities(),
    {
        let mut r: Vec<&EntityMeta> = Vec::new();
        let mut i: usize = 0;
        while i < self.entity_vec.len()
            invariant
                i <= self.entity_vec@.len(),
                self@.entities_known(),
                r@.len() == i,
                entity_ref_views(r@) == self@.entities().take(i as int),
            decreases self.entity_vec.len() - i,
        {
            let name = self.entity_vec[i].as_str();
            assert(self@.entity_vec[i as int] == name@);
            assert(self@.entity(self@.entity_vec[i as int]) is Some);
            match self.get_entity(name) {
                Some(e) => {
                    assert(self@.entities()[i as int] == e@);
                    let ghost before = r@;
                    r.push(e);
                    assert(entity_ref_views(r@) =~= self@.entities().take(i + 1));
                },
                None => {},
            }
            i += 1;
        }
        assert(self@.entities().take(i as int) =~= self@.entities());
        r
    }
}

impl EntityMeta {
    /// Stores the metadata of the field `name`, replacing an earlier one.
    pub fn put_field(&mut self, name: String, f: FieldMeta)
        ensures
            final(self)@ == (EntityMetaView {
                field_map: map_put(old(self)@.field_map, name@, f@),
                ..old(self)@
            }),
    {
        proof {
            lemma_field_keys(self.field_map@);
        }
        let ghost old_map = self.field_map@;
        let ghost nv = name@;
        let ghost fv = f@;
        put(&mut self.field_map, name, f);
        proof {
            let i = index_of(names_of(old_map), nv);
            crate::assoc::lemma_index_of(names_of(old_map), nv);
            if i < 0 {
                assert(field_entry_views(self.field_map@) =~= field_entry_views(old_map).push((nv, fv)));
            } else {
                assert(field_entry_views(self.field_map@) =~= field_entry_views(old_map).update(i, (nv, fv)));
            }
        }
    }

    /// Appends a field name to the declaration order.
    pub fn push_field_name(&mut self, name: String)
        ensures
            final(self)@ == (EntityMetaView {
                field_vec: old(self)@.field_vec.push(name@),
                ..old(self)@
            }),
    {
        let ghost old_vec = self.field_vec@;
        self.field_vec.push(name);
        assert(views(self.field_vec@) =~= views(old_vec).push(self.field_vec@.last()@));
    }

    /// Puts a field name first in the declaration order.
    pub fn prepend_field_name(&mut self, name: String)
        ensures
            final(self)@ == (EntityMetaView {
                field_vec: seq![name@] + old(self)@.field_vec,
                ..old(self)@
            }),
    {
        let ghost old_vec = self.field_vec@;
        let ghost nv = name@;
        self.field_vec.insert(0, name);
        assert(views(self.field_vec@) =~= seq![nv] + views(old_vec));
    }
}

impl OrmMeta {
    /// Stores the metadata of the entity `name`, replacing an earlier one.
    pub fn put_entity(&mut self, name: String, e: EntityMeta)
        ensures
            final(self)@ == (OrmMetaView {
                entity_map: map_put(old(self)@.entity_map, name@, e@),
                ..old(self)@
            }),
    {
        proof {
            lemma_entity_keys(self.entity_map@);
        }
        let ghost old_map = self.entity_map@;
        let ghost nv = name@;
        let ghost ev = e@;
        put(&mut self.entity_map, name, e);
        proof {
            let i = index_of(names_of(old_map), nv);
            crate::assoc::lemma_index_of(names_of(old_map), nv);
            if i < 0 {
                assert(entity_entry_views(self.entity_map@) =~= entity_entry_views(old_map).push((nv, ev)));
            } else {
                assert(entity_entry_views(self.entity_map@) =~= entity_entry_views(old_map).update(i, (nv, ev)));
            }
        }
    }

    /// Appends an entity name to the declaration order.
    pub fn push_entity_name(&mut self, name: String)
        ensures
            final(self)@ == (OrmMetaView {
                entity_vec: old(self)@.entity_vec.push(name@),
                ..old(self)@
            }),
    {
        let ghost old_vec = self.entity_vec@;
        self.entity_vec.push(name);
        assert(views(self.entity_vec@) =~= views(old_vec).push(self.entity_vec@.last()@));
    }
}

// ---------------------------------------------------------------------------
// Checks of what the statements need.

impl FieldMeta {
    /// Whether a plain field can be written as a column definition.
    pub fn has_db_type_checked(&self) -> (r: bool)
        ensures
            r == self@.has_db_type(),
    {
        match self {
            FieldMeta::Id { .. } => true,
            FieldMeta::Integer { number, .. } => {
                let n = number.as_str();
                str_eq(n, "i32") || str_eq(n, "u32") || str_eq(n, "i64") || str_eq(n, "u64")
            },
            FieldMeta::String { .. } => true,
            _ => false,
        }
    }
}

impl EntityMeta {
    /// Whether every field in the declaration order has metadata.
    pub fn fields_known_checked(&self) -> (r: bool)
        ensures
            r == self@.fields_known(),
    {
        let mut i: usize = 0;
        while i < self.field_vec.len()
            invariant
                i <= self.field_vec@.len(),
                forall|j: int| 0 <= j < i ==> (#[trigger] self@.field(self@.field_vec[j])) is Some,
            decreases self.field_vec.len() - i,
        {
            let name = self.field_vec[i].as_str();
            assert(self@.field_vec[i as int] == name@);
            if self.get_field(name).is_none() {
                return false;
            }
            i += 1;
        }
        true
    }

    /// Whether the table of the entity can be created: every field is known
    /// and every key or plain field can be written as a column.
    pub fn table_ready(&self) -> (r: bool)
        ensures
            r == (self@.fields_known() && self@.columns_typed()),
    {
        if !self.fields_known_checked() {
            return false;
        }
        let fields = self.get_non_refer_fields();
        let ghost fs = self@.non_refer_fields();
        let mut i: usize = 0;
        while i < fields.len()
            invariant
                i <= fields@.len(),
                ref_views(fields@) == fs,
                fs == self@.non_refer_fields(),
                forall|j: int| 0 <= j < i ==> (#[trigger] fs[j]).has_db_type(),
            decreases fields.len() - i,
        {
            assert(fs[i as int] == fields@[i as int]@);
            if !fields[i].has_db_type_checked() {
                return false;
            }
            i += 1;
        }
        true
    }
}

impl OrmMeta {
    /// Whether every entity in the declaration order is known, with all its fields.
    pub fn entities_ready(&self) -> (r: bool)
        ensures
            r == (self@.entities_known() && forall|i: int|
                0 <= i < self@.entities().len() ==> (#[trigger] self@.entities()[i]).fields_known()),
    {
        let mut i: usize = 0;
        while i < self.entity_vec.len()
            invariant
                i <= self.entity_vec@.len(),
                forall|j: int| 0 <= j < i ==> (#[trigger] self@.entity(self@.entity_vec[j])) is Some,
            decreases self.entity_vec.len() - i,
        {
            let name = self.entity_vec[i].as_str();
            assert(self@.entity_vec[i as int] == name@);
            if self.get_entity(name).is_none() {
                return false;
            }
            i += 1;
        }
        let list = self.get_entities();
        let ghost es = self@.entities();
        let mut k: usize = 0;
        while k < list.len()
            invariant
                k <= list@.len(),
                entity_ref_views(list@) == es,
                es == self@.entities(),
                self@.entities_known(),
                forall|j: int| 0 <= j < k ==> (#[trigger] es[j]).fields_known(),
            decreases list.len() - k,
        {
            assert(es[k as int] == list@[k as int]@);
            if !list[k].fields_known_checked() {
                return false;
            }
            k += 1;
        }
        true
    }
}

} // verus!
