//! Queries: an entity with its fetched relations (`with`) and joined entities,
//! rendered as one `SELECT` statement with named parameters.
use vstd::prelude::*;

use crate::cond::{cond_sql, items_params, join_cond_sql, param_views, Cond, ItemView, JoinCond};
use crate::meta::{EntityMeta, EntityMetaView, FieldMetaView, OrmMeta};
use crate::text::{concat2, join, join_spec, owned, views};
use crate::value::Value;

verus! {

/// How a joined entity is joined.
#[derive(Debug, Clone, Copy, PartialEq, Eq, Structural)]
pub enum JoinKind {
    Inner,
    Outer,
    Left,
    Right,
}

impl JoinKind {
    pub open spec fn sql(self) -> Seq<char> {
        match self {
            JoinKind::Inner => "INNER JOIN"@,
            JoinKind::Outer => "OUTER JOIN"@,
            JoinKind::Left => "LEFT JOIN"@,
            JoinKind::Right => "RIGHT JOIN"@,
        }
    }

    pub fn to_sql(&self) -> (r: String)
        ensures
            r@ == self.sql(),
    {
        match self {
            JoinKind::Inner => owned("INNER JOIN"),
            JoinKind::Outer => owned("OUTER JOIN"),
            JoinKind::Left => owned("LEFT JOIN"),
            JoinKind::Right => owned("RIGHT JOIN"),
        }
    }
}

/// A query over one entity under an alias, with an optional condition, the
/// relations fetched along with it and the entities joined to it.
#[derive(Debug)]
pub struct SelectImpl<'a> {
    pub meta: &'a EntityMeta,
    pub orm_meta: &'a OrmMeta,
    pub alias: String,
    pub cond: Option<Cond>,
    pub withs: Vec<(String, SelectImpl<'a>)>,
    pub joins: Vec<Join<'a>>,
}

/// An entity joined to a query.
#[derive(Debug)]
pub struct Join<'a> {
    pub kind: JoinKind,
    pub join_cond: JoinCond,
    pub on_cond: Option<Cond>,
    pub select: SelectImpl<'a>,
}

// ---------------------------------------------------------------------------
// What a query renders to.

/// The selected columns of the query's own entity: `alias.column AS alias$field`.
pub open spec fn self_columns(s: SelectImpl) -> Seq<Seq<char>> {
    s.meta@.non_refer_fields().map_values(
        |f: FieldMetaView| s.alias@ + "."@ + f.column_name() + " AS "@ + s.alias@ + "$"@ + f.field_name(),
    )
}

/// The measure of a query node for the recursion over its fetched and joined queries.
pub open spec fn width(s: SelectImpl) -> int {
    (s.withs@.len() + s.joins@.len() + 1) as int
}

/// The column groups of a query: its own, then those of each fetched relation,
/// then those of each joined entity.
pub open spec fn columns_of(s: SelectImpl) -> Seq<Seq<Seq<char>>>
    decreases s, width(s),
{
    seq![self_columns(s)] + with_columns(s, s.withs@.len() as int) + join_columns(s, s.joins@.len() as int)
}

pub open spec fn with_columns(s: SelectImpl, n: int) -> Seq<Seq<Seq<char>>>
    decreases s, n,
{
    if n <= 0 || n > s.withs@.len() {
        Seq::empty()
    } else {
        proof {
            lemma_with_decreases(s, n - 1);
        }
        with_columns(s, n - 1) + columns_of(s.withs@[n - 1].1)
    }
}

pub open spec fn join_columns(s: SelectImpl, n: int) -> Seq<Seq<Seq<char>>>
    decreases s, n,
{
    if n <= 0 || n > s.joins@.len() {
        Seq::empty()
    } else {
        proof {
            lemma_join_decreases(s, n - 1);
        }
        join_columns(s, n - 1) + columns_of(s.joins@[n - 1].select)
    }
}

/// The conditions of a query: its own, then those of its fetched relations,
/// then those of its joined entities.
pub open spec fn conds_of(s: SelectImpl) -> Seq<Seq<char>>
    decreases s, width(s),
{
    (match s.cond {
        Some(c) => seq![cond_sql(c@, s.alias@)],
        None => Seq::empty(),
    }) + with_conds(s, s.withs@.len() as int) + join_conds(s, s.joins@.len() as int)
}

pub open spec fn with_conds(s: SelectImpl, n: int) -> Seq<Seq<char>>
    decreases s, n,
{
    if n <= 0 || n > s.withs@.len() {
        Seq::empty()
    } else {
        proof {
            lemma_with_decreases(s, n - 1);
        }
        with_conds(s, n - 1) + conds_of(s.withs@[n - 1].1)
    }
}

pub open spec fn join_conds(s: SelectImpl, n: int) -> Seq<Seq<char>>
    decreases s, n,
{
    if n <= 0 || n > s.joins@.len() {
        Seq::empty()
    } else {
        proof {
            lemma_join_decreases(s, n - 1);
        }
        join_conds(s, n - 1) + conds_of(s.joins@[n - 1].select)
    }
}

/// The named parameters of a query: those of its condition, of its fetched
/// relations, of its joins' `on` conditions and of its joined queries.
pub open spec fn params_of(s: SelectImpl) -> Seq<(Seq<char>, Value)>
    decreases s, width(s),
{
    (match s.cond {
        Some(c) => items_params(c@, s.alias@),
        None => Seq::empty(),
    }) + with_params(s, s.withs@.len() as int) + join_on_params(s, s.joins@.len() as int)
        + join_params(s, s.joins@.len() as int)
}

pub open spec fn with_params(s: SelectImpl, n: int) -> Seq<(Seq<char>, Value)>
    decreases s, n,
{
    if n <= 0 || n > s.withs@.len() {
        Seq::empty()
    } else {
        proof {
            lemma_with_decreases(s, n - 1);
        }
        with_params(s, n - 1) + params_of(s.withs@[n - 1].1)
    }
}

pub open spec fn join_on_params(s: SelectImpl, n: int) -> Seq<(Seq<char>, Value)>
    decreases n,
{
    if n <= 0 || n > s.joins@.len() {
        Seq::empty()
    } else {
        let j = s.joins@[n - 1];
        join_on_params(s, n - 1) + match j.on_cond {
            Some(c) => items_params(c@, j.select.alias@),
            None => Seq::empty(),
        }
    }
}

pub open spec fn join_params(s: SelectImpl, n: int) -> Seq<(Seq<char>, Value)>
    decreases s, n,
{
    if n <= 0 || n > s.joins@.len() {
        Seq::empty()
    } else {
        proof {
            lemma_join_decreases(s, n - 1);
        }
        join_params(s, n - 1) + params_of(s.joins@[n - 1].select)
    }
}

/// The `LEFT JOIN` that fetches the `i`-th relation of a query.
pub open spec fn with_table(s: SelectImpl, i: int) -> Seq<char> {
    let field = s.withs@[i].0@;
    let sub = s.withs@[i].1;
    let f = s.meta@.field(field)->Some_0;
    let b_alias = s.alias@ + "_"@ + field;
    let a_column = s.meta@.field(f.refer_left())->Some_0.column_name();
    let b_column = sub.meta@.field(f.refer_right())->Some_0.column_name();
    "LEFT JOIN "@ + sub.meta@.table_name + " AS "@ + b_alias + " ON "@ + s.alias@ + "."@ + a_column
        + " = "@ + b_alias + "."@ + b_column
}

/// The clause that joins the `i`-th joined entity of a query.
pub open spec fn join_table(s: SelectImpl, i: int) -> Seq<char> {
    let j = s.joins@[i];
    let b_alias = j.select.alias@;
    let on = match j.on_cond {
        Some(c) => " AND "@ + cond_sql(c@, b_alias),
        None => ""@,
    };
    j.kind.sql() + " "@ + j.select.meta@.table_name + " AS "@ + b_alias + " ON "@ + join_cond_sql(
        j.join_cond@,
        s.alias@,
        b_alias,
    ) + on
}

/// The joined tables of a query, each followed by those of its own sub-queries.
pub open spec fn tables_of(s: SelectImpl) -> Seq<Seq<char>>
    decreases s, width(s),
{
    with_tables(s, s.withs@.len() as int) + join_tables(s, s.joins@.len() as int)
}

pub open spec fn with_tables(s: SelectImpl, n: int) -> Seq<Seq<char>>
    decreases s, n,
{
    if n <= 0 || n > s.withs@.len() {
        Seq::empty()
    } else {
        proof {
            lemma_with_decreases(s, n - 1);
        }
        with_tables(s, n - 1) + seq![with_table(s, n - 1)] + tables_of(s.withs@[n - 1].1)
    }
}

pub open spec fn join_tables(s: SelectImpl, n: int) -> Seq<Seq<char>>
    decreases s, n,
{
    if n <= 0 || n > s.joins@.len() {
        Seq::empty()
    } else {
        proof {
            lemma_join_decreases(s, n - 1);
        }
        join_tables(s, n - 1) + seq![join_table(s, n - 1)] + tables_of(s.joins@[n - 1].select)
    }
}

/// The query can be rendered: every entity's fields are known, and every
/// fetched relation is a relation field whose two key fields are columns.
pub open spec fn renderable(s: SelectImpl) -> bool
    decreases s, width(s),
{
    &&& s.meta@.fields_known()
    &&& withs_renderable(s, s.withs@.len() as int)
    &&& joins_renderable(s, s.joins@.len() as int)
}

/// The `i`-th fetched relation is a relation field whose key fields are columns.
pub open spec fn with_keys_ok(s: SelectImpl, i: int) -> bool {
    let field = s.withs@[i].0@;
    let sub = s.withs@[i].1;
    &&& s.meta@.field(field) matches Some(f)
    &&& f.is_relation()
    &&& s.meta@.field(f.refer_left()) matches Some(a)
    &&& (a.is_id() || a.is_normal())
    &&& sub.meta@.field(f.refer_right()) matches Some(b)
    &&& (b.is_id() || b.is_normal())
}

pub open spec fn withs_renderable(s: SelectImpl, n: int) -> bool
    decreases s, n,
{
    if n <= 0 || n > s.withs@.len() {
        true
    } else {
        proof {
            lemma_with_decreases(s, n - 1);
        }
        withs_renderable(s, n - 1) && with_keys_ok(s, n - 1) && renderable(s.withs@[n - 1].1)
    }
}

pub open spec fn joins_renderable(s: SelectImpl, n: int) -> bool
    decreases s, n,
{
    if n <= 0 || n > s.joins@.len() {
        true
    } else {
        proof {
            lemma_join_decreases(s, n - 1);
        }
        joins_renderable(s, n - 1) && renderable(s.joins@[n - 1].select)
    }
}

/// A fetched query is smaller than the query that fetches it.
pub proof fn lemma_with_decreases(s: SelectImpl, i: int)
    requires
        0 <= i < s.withs@.len(),
    ensures
        decreases_to!(s => s.withs@[i].1),
{
    assert(decreases_to!(s => s.withs));
    assert(decreases_to!(s.withs => s.withs@));
    assert(decreases_to!(s.withs@ => s.withs@[i]));
    assert(decreases_to!(s.withs@[i] => s.withs@[i].1));
}

/// A joined query is smaller than the query that joins it.
pub proof fn lemma_join_decreases(s: SelectImpl, i: int)
    requires
        0 <= i < s.joins@.len(),
    ensures
        decreases_to!(s => s.joins@[i].select),
{
    assert(decreases_to!(s => s.joins));
    assert(decreases_to!(s.joins => s.joins@));
    assert(decreases_to!(s.joins@ => s.joins@[i]));
    assert(decreases_to!(s.joins@[i] => s.joins@[i].select));
}

// ---------------------------------------------------------------------------
// Building queries.

/// `s2` is `s` with its condition set to `cond`.
pub open spec fn cond_set<'a>(s: SelectImpl<'a>, s2: SelectImpl<'a>, cond: Cond) -> bool {
    &&& s2.cond matches Some(c) && c@ == cond@
    &&& s2.meta == s.meta
    &&& s2.orm_meta == s.orm_meta
    &&& s2.alias == s.alias
    &&& s2.withs == s.withs
    &&& s2.joins == s.joins
}

/// A query of the entity `meta` under the alias `alias`, with nothing more.
pub open spec fn fresh<'a>(sub: SelectImpl<'a>, meta: EntityMetaView, orm_meta: &'a OrmMeta, alias: Seq<char>) -> bool {
    &&& sub.meta@ == meta
    &&& sub.orm_meta == orm_meta
    &&& sub.alias@ == alias
    &&& sub.cond is None
    &&& sub.withs@.len() == 0
    &&& sub.joins@.len() == 0
}

/// The relation `field` of `s` can be fetched: a relation naming a known entity.
pub open spec fn can_fetch(s: SelectImpl, field: Seq<char>) -> bool {
    s.meta@.field(field) matches Some(f) && f.is_relation() && s.orm_meta@.entity(f.refer_entity()) is Some
}

/// The query that fetching `field` along with `s` adds: the related entity
/// under the alias `<alias>_<field>`.
pub open spec fn fresh_with<'a>(s: SelectImpl<'a>, field: Seq<char>, sub: SelectImpl<'a>) -> bool {
    let f = s.meta@.field(field)->Some_0;
    fresh(sub, s.orm_meta@.entity(f.refer_entity())->Some_0, s.orm_meta, s.alias@ + "_"@ + field)
}

/// `s2` is `s` with one more fetched relation, `field`, last.
pub open spec fn with_pushed<'a>(s: SelectImpl<'a>, s2: SelectImpl<'a>, field: Seq<char>) -> bool {
    &&& s2.meta == s.meta
    &&& s2.orm_meta == s.orm_meta
    &&& s2.alias == s.alias
    &&& s2.cond == s.cond
    &&& s2.joins == s.joins
    &&& s2.withs@.len() == s.withs@.len() + 1
    &&& s2.withs@.drop_last() =~= s.withs@
    &&& s2.withs@.last().0@ == field
}

/// The join that joining `meta` to `s` on `cond` adds: the entity under the
/// alias `<alias>_<entity alias>`, with no condition of its own.
pub open spec fn fresh_join<'a>(s: SelectImpl<'a>, kind: JoinKind, meta: &'a EntityMeta, cond: JoinCond, j: Join<'a>) -> bool {
    &&& j.kind == kind
    &&& j.join_cond@ == cond@
    &&& j.on_cond is None
    &&& j.select.meta == meta
    &&& fresh(j.select, meta@, s.orm_meta, s.alias@ + "_"@ + meta@.alias)
}

/// `s2` is `s` with one more join, last.
pub open spec fn join_pushed<'a>(s: SelectImpl<'a>, s2: SelectImpl<'a>) -> bool {
    &&& s2.meta == s.meta
    &&& s2.orm_meta == s.orm_meta
    &&& s2.alias == s.alias
    &&& s2.cond == s.cond
    &&& s2.withs == s.withs
    &&& s2.joins@.len() == s.joins@.len() + 1
    &&& s2.joins@.drop_last() =~= s.joins@
}

impl<'a> SelectImpl<'a> {
    /// A query of the entity `meta` under its own alias.
    pub fn from_meta(meta: &'a EntityMeta, orm_meta: &'a OrmMeta) -> (r: Self)
        ensures
            r.meta == meta,
            fresh(r, meta@, orm_meta, meta@.alias),
    {
        SelectImpl {
            meta: meta,
            orm_meta: orm_meta,
            alias: meta.alias.clone(),
            cond: None,
            withs: Vec::new(),
            joins: Vec::new(),
        }
    }

    fn from_alias(meta: &'a EntityMeta, orm_meta: &'a OrmMeta, alias: String) -> (r: Self)
        ensures
            r.meta == meta,
            r.alias == alias,
            fresh(r, meta@, orm_meta, alias@),
    {
        SelectImpl {
            meta: meta,
            orm_meta: orm_meta,
            alias: alias,
            cond: None,
            withs: Vec::new(),
            joins: Vec::new(),
        }
    }

    /// Sets the query's condition.
    pub fn wher(&mut self, cond: &Cond) -> (r: &mut Self)
        ensures
            cond_set(*old(self), *r, *cond),
            *final(self) == *final(r),
    {
        self.cond = Some(cond.duplicate());
        self
    }

    /// Fetches the relation `field` along with the entity: a sub-query of the
    /// related entity aliased `<alias>_<field>`, which is returned.
    pub fn with(&mut self, field: &str) -> (r: &mut SelectImpl<'a>)
        requires
            can_fetch(*old(self), field@),
        ensures
            fresh_with(*old(self), field@, *r),
            with_pushed(*old(self), *final(self), field@),
            final(self).withs@.last().1 == *final(r),
    {
        let field_meta = match self.meta.get_field(field) {
            Some(f) => f,
            None => vstd::pervasive::unreached(),
        };
        let b_entity = field_meta.get_refer_entity();
        let b_meta = match self.orm_meta.get_entity(b_entity.as_str()) {
            Some(m) => m,
            None => vstd::pervasive::unreached(),
        };
        let mut alias = concat2(self.alias.as_str(), "_");
        alias.append(field);
        let select = SelectImpl::from_alias(b_meta, self.orm_meta, alias);
        self.withs.push((owned(field), select));
        let n = self.withs.len();
        &mut self.withs[n - 1].1
    }

    fn join_impl(&mut self, meta: &'a EntityMeta, cond: &JoinCond, kind: JoinKind) -> (r: &mut Join<'a>)
        ensures
            fresh_join(*old(self), kind, meta, *cond, *r),
            join_pushed(*old(self), *final(self)),
            final(self).joins@.last() == *final(r),
    {
        let mut alias = concat2(self.alias.as_str(), "_");
        alias.append(meta.alias.as_str());
        let select = SelectImpl::from_alias(meta, self.orm_meta, alias);
        let join = Join::new(kind, cond.duplicate(), select);
        self.joins.push(join);
        let n = self.joins.len();
        &mut self.joins[n - 1]
    }

    /// Joins the entity `meta` with an inner join on `cond`.
    pub fn join(&mut self, meta: &'a EntityMeta, cond: &JoinCond) -> (r: &mut Join<'a>)
        ensures
            fresh_join(*old(self), JoinKind::Inner, meta, *cond, *r),
            join_pushed(*old(self), *final(self)),
            final(self).joins@.last() == *final(r),
    {
        self.join_impl(meta, cond, JoinKind::Inner)
    }

    /// Joins the entity `meta` with an outer join on `cond`.
    pub fn outer_join(&mut self, meta: &'a EntityMeta, cond: &JoinCond) -> (r: &mut Join<'a>)
        ensures
            fresh_join(*old(self), JoinKind::Outer, meta, *cond, *r),
            join_pushed(*old(self), *final(self)),
            final(self).joins@.last() == *final(r),
    {
        self.join_impl(meta, cond, JoinKind::Outer)
    }

    /// Joins the entity `meta` with a left join on `cond`.
    pub fn left_join(&mut self, meta: &'a EntityMeta, cond: &JoinCond) -> (r: &mut Join<'a>)
        ensures
            fresh_join(*old(self), JoinKind::Left, meta, *cond, *r),
            join_pushed(*old(self), *final(self)),
            final(self).joins@.last() == *final(r),
    {
        self.join_impl(meta, cond, JoinKind::Left)
    }

    /// Joins the entity `meta` with a right join on `cond`.
    pub fn right_join(&mut self, meta: &'a EntityMeta, cond: &JoinCond) -> (r: &mut Join<'a>)
        ensures
            fresh_join(*old(self), JoinKind::Right, meta, *cond, *r),
            join_pushed(*old(self), *final(self)),
            final(self).joins@.last() == *final(r),
    {
        self.join_impl(meta, cond, JoinKind::Right)
    }
}

impl<'a> Join<'a> {
    fn new(kind: JoinKind, join_cond: JoinCond, select: SelectImpl<'a>) -> (r: Self)
        ensures
            r.kind == kind,
            r.join_cond == join_cond,
            r.on_cond is None,
            r.select == select,
    {
        Join { kind: kind, join_cond: join_cond, on_cond: None, select: select }
    }

    /// Adds a condition on the joined entity to the join clause.
    pub fn on(&mut self, cond: &Cond) -> (r: &mut Self)
        ensures
            r.on_cond matches Some(c) && c@ == cond@,
            r.kind == old(self).kind,
            r.join_cond == old(self).join_cond,
            r.select == old(self).select,
            *final(self) == *final(r),
    {
        self.on_cond = Some(cond.duplicate());
        self
    }

    /// Sets the condition of the joined query.
    pub fn wher(&mut self, cond: &Cond) -> (r: &mut SelectImpl<'a>)
        ensures
            cond_set(old(self).select, *r, *cond),
            final(self).kind == old(self).kind,
            final(self).join_cond == old(self).join_cond,
            final(self).on_cond == old(self).on_cond,
            final(self).select == *final(r),
    {
        self.select.wher(cond)
    }

    /// Fetches a relation of the joined entity.
    pub fn with(&mut self, field: &str) -> (r: &mut SelectImpl<'a>)
        requires
            can_fetch(old(self).select, field@),
        ensures
            fresh_with(old(self).select, field@, *r),
            with_pushed(old(self).select, final(self).select, field@),
            final(self).select.withs@.last().1 == *final(r),
            final(self).kind == old(self).kind,
            final(self).join_cond == old(self).join_cond,
            final(self).on_cond == old(self).on_cond,
    {
        self.select.with(field)
    }

    pub fn join(&mut self, meta: &'a EntityMeta, join_cond: &JoinCond) -> (r: &mut Join<'a>)
        ensures
            fresh_join(old(self).select, JoinKind::Inner, meta, *join_cond, *r),
            join_pushed(old(self).select, final(self).select),
            final(self).select.joins@.last() == *final(r),
            final(self).kind == old(self).kind,
            final(self).join_cond == old(self).join_cond,
            final(self).on_cond == old(self).on_cond,
    {
        self.select.join(meta, join_cond)
    }

    pub fn left_join(&mut self, meta: &'a EntityMeta, join_cond: &JoinCond) -> (r: &mut Join<'a>)
        ensures
            fresh_join(old(self).select, JoinKind::Left, meta, *join_cond, *r),
            join_pushed(old(self).select, final(self).select),
            final(self).select.joins@.last() == *final(r),
            final(self).kind == old(self).kind,
            final(self).join_cond == old(self).join_cond,
            final(self).on_cond == old(self).on_cond,
    {
        self.select.left_join(meta, join_cond)
    }

    pub fn right_join(&mut self, meta: &'a EntityMeta, join_cond: &JoinCond) -> (r: &mut Join<'a>)
        ensures
            fresh_join(old(self).select, JoinKind::Right, meta, *join_cond, *r),
            join_pushed(old(self).select, final(self).select),
            final(self).select.joins@.last() == *final(r),
            final(self).kind == old(self).kind,
            final(self).join_cond == old(self).join_cond,
            final(self).on_cond == old(self).on_cond,
    {
        self.select.right_join(meta, join_cond)
    }

    pub fn outer_join(&mut self, meta: &'a EntityMeta, join_cond: &JoinCond) -> (r: &mut Join<'a>)
        ensures
            fresh_join(old(self).select, JoinKind::Outer, meta, *join_cond, *r),
            join_pushed(old(self).select, final(self).select),
            final(self).select.joins@.last() == *final(r),
            final(self).kind == old(self).kind,
            final(self).join_cond == old(self).join_cond,
            final(self).on_cond == old(self).on_cond,
    {
        self.select.outer_join(meta, join_cond)
    }
}

/// A query of one entity type.
#[derive(Debug)]
pub struct Select<'a> {
    pub imp: SelectImpl<'a>,
}

impl<'a> Select<'a> {
    pub fn new(meta: &'a EntityMeta, orm_meta: &'a OrmMeta) -> (r: Self)
        ensures
            r.imp.meta == meta,
            fresh(r.imp, meta@, orm_meta, meta@.alias),
    {
        Select { imp: SelectImpl::from_meta(meta, orm_meta) }
    }

    pub fn wher(&mut self, cond: &Cond) -> (r: &mut SelectImpl<'a>)
        ensures
            cond_set(old(self).imp, *r, *cond),
            final(self).imp == *final(r),
    {
        self.imp.wher(cond)
    }

    pub fn with(&mut self, field: &str) -> (r: &mut SelectImpl<'a>)
        requires
            can_fetch(old(self).imp, field@),
        ensures
            fresh_with(old(self).imp, field@, *r),
            with_pushed(old(self).imp, final(self).imp, field@),
            final(self).imp.withs@.last().1 == *final(r),
    {
        self.imp.with(field)
    }

    pub fn join(&mut self, meta: &'a EntityMeta, cond: &JoinCond) -> (r: &mut Join<'a>)
        ensures
            fresh_join(old(self).imp, JoinKind::Inner, meta, *cond, *r),
            join_pushed(old(self).imp, final(self).imp),
            final(self).imp.joins@.last() == *final(r),
    {
        self.imp.join(meta, cond)
    }

    pub fn left_join(&mut self, meta: &'a EntityMeta, cond: &JoinCond) -> (r: &mut Join<'a>)
        ensures
            fresh_join(old(self).imp, JoinKind::Left, meta, *cond, *r),
            join_pushed(old(self).imp, final(self).imp),
            final(self).imp.joins@.last() == *final(r),
    {
        self.imp.left_join(meta, cond)
    }

    pub fn right_join(&mut self, meta: &'a EntityMeta, cond: &JoinCond) -> (r: &mut Join<'a>)
        ensures
            fresh_join(old(self).imp, JoinKind::Right, meta, *cond, *r),
            join_pushed(old(self).imp, final(self).imp),
            final(self).imp.joins@.last() == *final(r),
    {
        self.imp.right_join(meta, cond)
    }

    pub fn outer_join(&mut self, meta: &'a EntityMeta, cond: &JoinCond) -> (r: &mut Join<'a>)
        ensures
            fresh_join(old(self).imp, JoinKind::Outer, meta, *cond, *r),
            join_pushed(old(self).imp, final(self).imp),
            final(self).imp.joins@.last() == *final(r),
    {
        self.imp.outer_join(meta, cond)
    }
}

// ---------------------------------------------------------------------------
// Rendering queries.

/// The character views of groups of strings.
pub open spec fn nested_views(v: Seq<Vec<String>>) -> Seq<Seq<Seq<char>>> {
    v.map_values(|x: Vec<String>| views(x@))
}

/// All tables of a query: its own entity's table, then the joined ones.
pub open spec fn full_tables(s: SelectImpl) -> Seq<Seq<char>> {
    seq![s.meta@.table_name + " as "@ + s.alias@] + tables_of(s)
}

/// The conditions of a query, or the always-true `1 = 1` when it has none.
pub open spec fn full_conds(s: SelectImpl) -> Seq<Seq<char>> {
    if conds_of(s).len() == 0 {
        seq!["1 = 1"@]
    } else {
        conds_of(s)
    }
}

/// The `SELECT` statement of a query.
pub open spec fn sql_of(s: SelectImpl) -> Seq<char> {
    "SELECT\n\t"@ + join_spec(
        columns_of(s).map_values(|g: Seq<Seq<char>>| join_spec(g, ",\n\t"@)),
        ",\n\n\t"@,
    ) + "\nFROM\n\t"@ + join_spec(full_tables(s), "\n\t"@) + "\nWHERE\n\t"@ + join_spec(
        full_conds(s),
        "\n\tAND "@,
    )
}

/// Each fetched query of a renderable query is renderable, and its key fields are columns.
pub proof fn lemma_withs_renderable(s: SelectImpl, n: int)
    requires
        withs_renderable(s, n),
        n <= s.withs@.len(),
    ensures
        forall|i: int| 0 <= i < n ==> #[trigger] renderable(s.withs@[i].1),
        forall|i: int| 0 <= i < n ==> #[trigger] with_keys_ok(s, i),
    decreases n,
{
    if n > 0 {
        lemma_withs_renderable(s, n - 1);
        assert(with_keys_ok(s, n - 1));
        assert(renderable(s.withs@[n - 1].1));
    }
}

/// Each joined query of a renderable query is renderable.
pub proof fn lemma_joins_renderable(s: SelectImpl, n: int)
    requires
        joins_renderable(s, n),
        n <= s.joins@.len(),
    ensures
        forall|i: int| 0 <= i < n ==> #[trigger] renderable(s.joins@[i].select),
    decreases n,
{
    if n > 0 {
        lemma_joins_renderable(s, n - 1);
    }
}

impl<'a> SelectImpl<'a> {
    fn self_columns(&self) -> (r: Vec<String>)
        requires
            self.meta@.fields_known(),
        ensures
            views(r@) == self_columns(*self),
    {
        let fields = self.meta.get_non_refer_fields();
        let ghost fs = self.meta@.non_refer_fields();
        proof {
            crate::meta::lemma_select_holds(self.meta@.fields(), crate::meta::FieldSel::NonRefer);
        }
        let mut r: Vec<String> = Vec::new();
        let mut i: usize = 0;
        while i < fields.len()
            invariant
                i <= fields@.len(),
                fs == crate::meta::ref_views(fields@),
                fs == self.meta@.non_refer_fields(),
                forall|j: int| 0 <= j < fs.len() ==> !(#[trigger] fs[j]).is_relation(),
                r@.len() == i,
                forall|j: int| 0 <= j < i ==> #[trigger] r@[j]@ == self.alias@ + "."@ + fs[j].column_name() + " AS "@
                    + self.alias@ + "$"@ + fs[j].field_name(),
            decreases fields.len() - i,
        {
            assert(fs[i as int] == fields@[i as int]@);
            assert(!fs[i as int].is_relation());
            let column = fields[i].get_column_name();
            let field = fields[i].get_field_name();
            let mut c = concat2(self.alias.as_str(), ".");
            c.append(column.as_str());
            c.append(" AS ");
            c.append(self.alias.as_str());
            c.append("$");
            c.append(field.as_str());
            r.push(c);
            i += 1;
        }
        assert(views(r@) =~= self_columns(*self));
        r
    }

    fn inner_get_columns(&self) -> (r: Vec<Vec<String>>)
        requires
            renderable(*self),
        ensures
            nested_views(r@) == columns_of(*self),
        decreases self,
    {
        proof {
            lemma_withs_renderable(*self, self.withs@.len() as int);
            lemma_joins_renderable(*self, self.joins@.len() as int);
        }
        let mut r: Vec<Vec<String>> = Vec::new();
        r.push(self.self_columns());
        assert(nested_views(r@) =~= seq![self_columns(*self)] + with_columns(*self, 0));
        let mut i: usize = 0;
        while i < self.withs.len()
            invariant
                i <= self.withs@.len(),
                forall|k: int| 0 <= k < self.withs@.len() ==> #[trigger] renderable(self.withs@[k].1),
                nested_views(r@) == seq![self_columns(*self)] + with_columns(*self, i as int),
            decreases self.withs.len() - i,
        {
            proof {
                lemma_with_decreases(*self, i as int);
            }
            let mut sub = self.withs[i].1.inner_get_columns();
            let ghost before = r@;
            let ghost added = sub@;
            r.append(&mut sub);
            assert(nested_views(r@) =~= nested_views(before) + nested_views(added));
            i += 1;
        }
        let mut k: usize = 0;
        assert(join_columns(*self, 0) =~= Seq::empty());
        while k < self.joins.len()
            invariant
                k <= self.joins@.len(),
                forall|m: int| 0 <= m < self.joins@.len() ==> #[trigger] renderable(self.joins@[m].select),
                nested_views(r@) == seq![self_columns(*self)] + with_columns(*self, self.withs@.len() as int)
                    + join_columns(*self, k as int),
            decreases self.joins.len() - k,
        {
            proof {
                lemma_join_decreases(*self, k as int);
            }
            let mut sub = self.joins[k].select.inner_get_columns();
            let ghost before = r@;
            let ghost added = sub@;
            r.append(&mut sub);
            assert(nested_views(r@) =~= nested_views(before) + nested_views(added));
            k += 1;
        }
        r
    }

    fn inner_get_conds(&self) -> (r: Vec<String>)
        ensures
            views(r@) == conds_of(*self),
        decreases self,
    {
        let mut r: Vec<String> = Vec::new();
        match &self.cond {
            Some(c) => r.push(c.to_sql(self.alias.as_str())),
            None => {},
        }
        assert(views(r@) =~= (match self.cond {
            Some(c) => seq![cond_sql(c@, self.alias@)],
            None => Seq::<Seq<char>>::empty(),
        }));
        let ghost head = views(r@);
        let mut i: usize = 0;
        while i < self.withs.len()
            invariant
                i <= self.withs@.len(),
                views(r@) == head + with_conds(*self, i as int),
            decreases self.withs.len() - i,
        {
            proof {
                lemma_with_decreases(*self, i as int);
            }
            let mut sub = self.withs[i].1.inner_get_conds();
            let ghost before = r@;
            let ghost added = sub@;
            r.append(&mut sub);
            assert(views(r@) =~= views(before) + views(added));
            i += 1;
        }
        let mut k: usize = 0;
        while k < self.joins.len()
            invariant
                k <= self.joins@.len(),
                views(r@) == head + with_conds(*self, self.withs@.len() as int) + join_conds(*self, k as int),
            decreases self.joins.len() - k,
        {
            proof {
                lemma_join_decreases(*self, k as int);
            }
            let mut sub = self.joins[k].select.inner_get_conds();
            let ghost before = r@;
            let ghost added = sub@;
            r.append(&mut sub);
            assert(views(r@) =~= views(before) + views(added));
            k += 1;
        }
        r
    }

    fn inner_get_params(&self) -> (r: Vec<(String, Value)>)
        ensures
            param_views(r@) == params_of(*self),
        decreases self,
    {
        let mut r: Vec<(String, Value)> = match &self.cond {
            Some(c) => c.to_params(self.alias.as_str()),
            None => Vec::new(),
        };
        assert(param_views(r@) =~= (match self.cond {
            Some(c) => items_params(c@, self.alias@),
            None => Seq::<(Seq<char>, Value)>::empty(),
        }));
        let ghost head = param_views(r@);
        let mut i: usize = 0;
        while i < self.withs.len()
            invariant
                i <= self.withs@.len(),
                param_views(r@) == head + with_params(*self, i as int),
            decreases self.withs.len() - i,
        {
            proof {
                lemma_with_decreases(*self, i as int);
            }
            let mut sub = self.withs[i].1.inner_get_params();
            let ghost before = r@;
            let ghost added = sub@;
            r.append(&mut sub);
            assert(param_views(r@) =~= param_views(before) + param_views(added));
            i += 1;
        }
        let mut k: usize = 0;
        while k < self.joins.len()
            invariant
                k <= self.joins@.len(),
                param_views(r@) == head + with_params(*self, self.withs@.len() as int) + join_on_params(
                    *self,
                    k as int,
                ),
            decreases self.joins.len() - k,
        {
            let join = &self.joins[k];
            let mut sub = match &join.on_cond {
                Some(c) => c.to_params(join.select.alias.as_str()),
                None => Vec::new(),
            };
            let ghost before = r@;
            let ghost added = sub@;
            r.append(&mut sub);
            assert(param_views(r@) =~= param_views(before) + param_views(added));
            k += 1;
        }
        let mut k: usize = 0;
        while k < self.joins.len()
            invariant
                k <= self.joins@.len(),
                param_views(r@) == head + with_params(*self, self.withs@.len() as int) + join_on_params(
                    *self,
                    self.joins@.len() as int,
                ) + join_params(*self, k as int),
            decreases self.joins.len() - k,
        {
            proof {
                lemma_join_decreases(*self, k as int);
            }
            let mut sub = self.joins[k].select.inner_get_params();
            let ghost before = r@;
            let ghost added = sub@;
            r.append(&mut sub);
            assert(param_views(r@) =~= param_views(before) + param_views(added));
            k += 1;
        }
        r
    }

    fn with_table(&self, i: usize) -> (r: String)
        requires
            i < self.withs@.len(),
            with_keys_ok(*self, i as int),
        ensures
            r@ == with_table(*self, i as int),
    {
        let a_b_field = self.withs[i].0.as_str();
        let select = &self.withs[i].1;
        let a_b_meta = match self.meta.get_field(a_b_field) {
            Some(f) => f,
            None => vstd::pervasive::unreached(),
        };
        let mut b_alias = concat2(self.alias.as_str(), "_");
        b_alias.append(a_b_field);
        let (a_field, b_field) = a_b_meta.get_refer_lr();
        let a_column = match self.meta.get_field(a_field.as_str()) {
            Some(f) => f.get_column_name(),
            None => vstd::pervasive::unreached(),
        };
        let b_column = match select.meta.get_field(b_field.as_str()) {
            Some(f) => f.get_column_name(),
            None => vstd::pervasive::unreached(),
        };
        let mut r = concat2("LEFT JOIN ", select.meta.table_name.as_str());
        r.append(" AS ");
        r.append(b_alias.as_str());
        r.append(" ON ");
        r.append(self.alias.as_str());
        r.append(".");
        r.append(a_column.as_str());
        r.append(" = ");
        r.append(b_alias.as_str());
        r.append(".");
        r.append(b_column.as_str());
        r
    }

    fn join_table(&self, k: usize) -> (r: String)
        requires
            k < self.joins@.len(),
        ensures
            r@ == join_table(*self, k as int),
    {
        let join = &self.joins[k];
        let b_alias = join.select.alias.as_str();
        let join_cond = join.join_cond.to_sql(self.alias.as_str(), b_alias);
        let on_cond = match &join.on_cond {
            Some(c) => {
                let c = c.to_sql(b_alias);
                concat2(" AND ", c.as_str())
            },
            None => owned(""),
        };
        let join_kind = join.kind.to_sql();
        let mut r = concat2(join_kind.as_str(), " ");
        r.append(join.select.meta.table_name.as_str());
        r.append(" AS ");
        r.append(b_alias);
        r.append(" ON ");
        r.append(join_cond.as_str());
        r.append(on_cond.as_str());
        r
    }

    fn inner_get_tables(&self) -> (r: Vec<String>)
        requires
            renderable(*self),
        ensures
            views(r@) == tables_of(*self),
        decreases self,
    {
        proof {
            lemma_withs_renderable(*self, self.withs@.len() as int);
            lemma_joins_renderable(*self, self.joins@.len() as int);
        }
        let mut r: Vec<String> = Vec::new();
        assert(views(r@) =~= with_tables(*self, 0));
        let mut i: usize = 0;
        while i < self.withs.len()
            invariant
                i <= self.withs@.len(),
                forall|k: int| 0 <= k < self.withs@.len() ==> #[trigger] renderable(self.withs@[k].1),
                forall|k: int| 0 <= k < self.withs@.len() ==> #[trigger] with_keys_ok(*self, k),
                views(r@) == with_tables(*self, i as int),
            decreases self.withs.len() - i,
        {
            proof {
                lemma_with_decreases(*self, i as int);
            }
            let t = self.with_table(i);
            let ghost before = r@;
            r.push(t);
            let mut sub = self.withs[i].1.inner_get_tables();
            let ghost added = sub@;
            r.append(&mut sub);
            assert(views(r@) =~= views(before) + seq![t@] + views(added));
            i += 1;
        }
        let ghost head = views(r@);
        assert(views(r@) =~= head + join_tables(*self, 0));
        let mut k: usize = 0;
        while k < self.joins.len()
            invariant
                k <= self.joins@.len(),
                forall|m: int| 0 <= m < self.joins@.len() ==> #[trigger] renderable(self.joins@[m].select),
                views(r@) == head + join_tables(*self, k as int),
            decreases self.joins.len() - k,
        {
            proof {
                lemma_join_decreases(*self, k as int);
            }
            let t = self.join_table(k);
            let ghost before = r@;
            r.push(t);
            let mut sub = self.joins[k].select.inner_get_tables();
            let ghost added = sub@;
            r.append(&mut sub);
            assert(views(r@) =~= views(before) + seq![t@] + views(added));
            k += 1;
        }
        r
    }

    /// The column groups of the query.
    pub fn get_columns(&self) -> (r: Vec<Vec<String>>)
        requires
            renderable(*self),
        ensures
            nested_views(r@) == columns_of(*self),
    {
        self.inner_get_columns()
    }

    /// The conditions of the query, or `1 = 1` when it has none.
    pub fn get_conds(&self) -> (r: Vec<String>)
        ensures
            views(r@) == full_conds(*self),
    {
        let mut vec = self.inner_get_conds();
        if vec.len() == 0 {
            vec.push(owned("1 = 1"));
            assert(views(vec@) =~= seq!["1 = 1"@]);
        }
        vec
    }

    /// The tables of the query: its own entity's, then the joined ones.
    pub fn get_tables(&self) -> (r: Vec<String>)
        requires
            renderable(*self),
        ensures
            views(r@) == full_tables(*self),
    {
        let mut self_table = concat2(self.meta.table_name.as_str(), " as ");
        self_table.append(self.alias.as_str());
        let mut tables = self.inner_get_tables();
        let ghost rest = views(tables@);
        tables.insert(0, self_table);
        assert(views(tables@) =~= full_tables(*self));
        tables
    }

    /// The named parameters of the query.
    pub fn get_params(&self) -> (r: Vec<(String, Value)>)
        ensures
            param_views(r@) == params_of(*self),
    {
        self.inner_get_params()
    }

    /// The `SELECT` statement of the query.
    pub fn get_sql(&self) -> (r: String)
        requires
            renderable(*self),
        ensures
            r@ == sql_of(*self),
    {
        let groups = self.get_columns();
        let ghost gs = columns_of(*self);
        let mut parts: Vec<String> = Vec::new();
        let mut i: usize = 0;
        while i < groups.len()
            invariant
                i <= groups@.len(),
                nested_views(groups@) == gs,
                parts@.len() == i,
                forall|j: int| 0 <= j < i ==> #[trigger] parts@[j]@ == join_spec(gs[j], ",\n\t"@),
            decreases groups.len() - i,
        {
            assert(views(groups@[i as int]@) == gs[i as int]);
            parts.push(join(&groups[i], ",\n\t"));
            i += 1;
        }
        assert(views(parts@) =~= gs.map_values(|g: Seq<Seq<char>>| join_spec(g, ",\n\t"@)));
        let columns = join(&parts, ",\n\n\t");
        let tables = join(&self.get_tables(), "\n\t");
        let conds = join(&self.get_conds(), "\n\tAND ");
        let mut r = concat2("SELECT\n\t", columns.as_str());
        r.append("\nFROM\n\t");
        r.append(tables.as_str());
        r.append("\nWHERE\n\t");
        r.append(conds.as_str());
        r
    }
}

/// Whether the field `name` of `meta` is the key or a plain field.
fn column_field(meta: &EntityMeta, name: &str) -> (r: bool)
    ensures
        r == (meta@.field(name@) matches Some(a) && (a.is_id() || a.is_normal())),
{
    match meta.get_field(name) {
        Some(a) => a.is_type_id() || a.is_type_normal(),
        None => false,
    }
}

impl<'a> SelectImpl<'a> {
    /// Whether the `i`-th fetched relation is a relation field whose key
    /// fields are columns.
    fn with_keys_checked(&self, i: usize) -> (r: bool)
        requires
            i < self.withs@.len(),
        ensures
            r == with_keys_ok(*self, i as int),
    {
        let field = self.withs[i].0.as_str();
        let sub = &self.withs[i].1;
        match self.meta.get_field(field) {
            None => false,
            Some(f) => {
                if !f.is_type_refer() {
                    return false;
                }
                let (left, right) = f.get_refer_lr();
                column_field(self.meta, left.as_str()) && column_field(sub.meta, right.as_str())
            },
        }
    }

    /// Whether the query can be rendered (see `renderable`).
    pub fn is_renderable(&self) -> (r: bool)
        ensures
            r == renderable(*self),
        decreases self,
    {
        if !self.meta.fields_known_checked() {
            return false;
        }
        let mut i: usize = 0;
        while i < self.withs.len()
            invariant
                i <= self.withs@.len(),
                self.meta@.fields_known(),
                withs_renderable(*self, i as int),
            decreases self.withs.len() - i,
        {
            proof {
                lemma_with_decreases(*self, i as int);
            }
            if !self.with_keys_checked(i) || !self.withs[i].1.is_renderable() {
                proof {
                    lemma_withs_stop(*self, i as int + 1);
                }
                return false;
            }
            i += 1;
        }
        let mut k: usize = 0;
        while k < self.joins.len()
            invariant
                k <= self.joins@.len(),
                self.meta@.fields_known(),
                withs_renderable(*self, self.withs@.len() as int),
                joins_renderable(*self, k as int),
            decreases self.joins.len() - k,
        {
            proof {
                lemma_join_decreases(*self, k as int);
            }
            if !self.joins[k].select.is_renderable() {
                proof {
                    lemma_joins_stop(*self, k as int + 1);
                }
                return false;
            }
            k += 1;
        }
        true
    }
}

impl<'a> SelectImpl<'a> {
    /// Whether the relation `field` can be fetched along: it is a relation
    /// field of the entity, naming a known entity.
    pub fn can_with(&self, field: &str) -> (r: bool)
        ensures
            r == can_fetch(*self, field@),
    {
        match self.meta.get_field(field) {
            None => false,
            Some(f) => {
                if !f.is_type_refer() {
                    return false;
                }
                let entity = f.get_refer_entity();
                self.orm_meta.get_entity(entity.as_str()).is_some()
            },
        }
    }
}

/// Once a fetched relation cannot be rendered, the whole list cannot.
pub proof fn lemma_withs_stop(s: SelectImpl, n: int)
    requires
        0 < n <= s.withs@.len(),
        !withs_renderable(s, n),
    ensures
        !withs_renderable(s, s.withs@.len() as int),
    decreases s.withs@.len() - n,
{
    if n < s.withs@.len() {
        lemma_withs_stop(s, n + 1);
    }
}

/// Once a joined query cannot be rendered, the whole list cannot.
pub proof fn lemma_joins_stop(s: SelectImpl, n: int)
    requires
        0 < n <= s.joins@.len(),
        !joins_renderable(s, n),
    ensures
        !joins_renderable(s, s.joins@.len() as int),
    decreases s.joins@.len() - n,
{
    if n < s.joins@.len() {
        lemma_joins_stop(s, n + 1);
    }
}

} // verus!
