//! Storing an entity together with the entities its relations hold.
//!
//! An insertion is a tree of relations to follow (see `Insert` and `Execute`),
//! flattened into a list of `PlanNode`s. A `Runner` walks the entity graph
//! along it one task at a time: it copies key values between related entities
//! in memory, and hands each `INSERT` to its caller, who runs it against the
//! database and reports the outcome back.
use vstd::prelude::*;

use crate::assoc::{entry_get, map_get};
use crate::cond::param_views;
use crate::entity::{store_set, EntityInner, EntityInnerView, EntityStore, Statement, StatementView};
use crate::meta::{EntityMeta, EntityMetaView, FieldMetaView, OrmMeta, OrmMetaView, ReferKind};
use crate::text::{concat2, join, join_spec, owned, str_eq, views};
use crate::value::{EntityId, FieldValue, FieldValueView, Value};

verus! {

// ---------------------------------------------------------------------------
// The statement that stores one entity.

/// The fields that the `INSERT` of an entity sets: in field order, each field
/// that the entity holds and that is not a relation, leaving out a generated key.
pub open spec fn stored_fields(meta: EntityMetaView, e: EntityInnerView, n: int) -> Seq<Seq<char>>
    decreases n,
{
    if n <= 0 || n > meta.field_vec.len() {
        Seq::empty()
    } else {
        let name = meta.field_vec[n - 1];
        let f = meta.field(name)->Some_0;
        let prev = stored_fields(meta, e, n - 1);
        if (meta.id_auto() && f.is_id()) || e.get(name) is None || f.is_relation() {
            prev
        } else {
            prev.push(name)
        }
    }
}

pub open spec fn all_stored_fields(meta: EntityMetaView, e: EntityInnerView) -> Seq<Seq<char>> {
    stored_fields(meta, e, meta.field_vec.len() as int)
}

/// The `INSERT .. SET` statement of an entity.
pub open spec fn self_insert_sql(meta: EntityMetaView, e: EntityInnerView) -> Seq<char> {
    "INSERT INTO `"@ + meta.table_name + "` SET "@ + join_spec(
        all_stored_fields(meta, e).map_values(|f: Seq<char>| "`"@ + f + "` = :"@ + f),
        ", "@,
    )
}

/// The parameters of that statement: each stored field with its value.
pub open spec fn self_insert_params(meta: EntityMetaView, e: EntityInnerView) -> Seq<(Seq<char>, Value)> {
    all_stored_fields(meta, e).map_values(|f: Seq<char>| (f, e.value_or_null(f)))
}

pub open spec fn self_insert(meta: EntityMetaView, e: EntityInnerView) -> StatementView {
    StatementView { sql: self_insert_sql(meta, e), params: self_insert_params(meta, e) }
}

/// The key field of the type is a key.
pub open spec fn id_known(meta: EntityMetaView) -> bool {
    meta.field("id"@) matches Some(f) && f is Id
}

/// The `INSERT` can be written: every field is known, the key field is a key,
/// and every stored field holds a column value.
pub open spec fn self_insert_ok(meta: EntityMetaView, e: EntityInnerView) -> bool {
    &&& meta.fields_known()
    &&& id_known(meta)
    &&& forall|i: int|
        0 <= i < all_stored_fields(meta, e).len() ==> (e.get(#[trigger] all_stored_fields(meta, e)[i])
            matches Some(v) && v is Value)
}

/// Whether the key field of the type is a key.
pub fn id_field_known(meta: &EntityMeta) -> (r: bool)
    ensures
        r == id_known(meta@),
{
    match meta.get_field("id") {
        Some(f) => f.is_type_id(),
        None => false,
    }
}

/// The names of the fields that the `INSERT` of `e` sets.
fn stored_field_names(meta: &EntityMeta, e: &EntityInner) -> (r: Vec<String>)
    requires
        meta@.fields_known(),
        id_known(meta@),
    ensures
        views(r@) == all_stored_fields(meta@, e@),
{
    let auto = meta.is_id_auto();
    let ghost m = meta@;
    let ghost ev = e@;
    let mut names: Vec<String> = Vec::new();
    let mut i: usize = 0;
    while i < meta.field_vec.len()
        invariant
            i <= meta.field_vec@.len(),
            m == meta@,
            ev == e@,
            m.fields_known(),
            auto == m.id_auto(),
            views(names@) == stored_fields(m, ev, i as int),
        decreases meta.field_vec.len() - i,
    {
        let name = meta.field_vec[i].as_str();
        assert(m.field_vec[i as int] == name@);
        assert(m.field(m.field_vec[i as int]) is Some);
        let field_meta = match meta.get_field(name) {
            Some(f) => f,
            None => vstd::pervasive::unreached(),
        };
        let skip = (auto && field_meta.is_type_id()) || e.get(name).is_none() || field_meta.is_type_refer();
        if !skip {
            let ghost before = names@;
            names.push(owned(name));
            assert(views(names@) =~= views(before).push(name@));
        }
        i += 1;
    }
    names
}

/// Whether the `INSERT` of `e` can be written.
pub fn self_insert_readable(meta: &EntityMeta, e: &EntityInner) -> (r: bool)
    ensures
        r == self_insert_ok(meta@, e@),
{
    if !meta.fields_known_checked() || !id_field_known(meta) {
        return false;
    }
    let names = stored_field_names(meta, e);
    let ghost fs = all_stored_fields(meta@, e@);
    let mut k: usize = 0;
    while k < names.len()
        invariant
            k <= names@.len(),
            views(names@) == fs,
            fs == all_stored_fields(meta@, e@),
            forall|j: int| 0 <= j < k ==> (e@.get(#[trigger] fs[j]) matches Some(v) && v is Value),
        decreases names.len() - k,
    {
        let name = names[k].as_str();
        assert(fs[k as int] == name@);
        match e.get(name) {
            Some(v) => {
                if !v.is_value() {
                    return false;
                }
            },
            None => {
                return false;
            },
        }
        k += 1;
    }
    true
}

/// The `INSERT .. SET` statement that stores the entity `e` of type `meta`,
/// with one parameter per stored field.
pub fn self_insert_statement(meta: &EntityMeta, e: &EntityInner) -> (r: Statement)
    requires
        self_insert_ok(meta@, e@),
    ensures
        r@ == self_insert(meta@, e@),
{
    let names = stored_field_names(meta, e);
    let ghost ev = e@;
    let ghost fs = all_stored_fields(meta@, ev);
    let mut params: Vec<(String, Value)> = Vec::new();
    let mut pairs: Vec<String> = Vec::new();
    let mut k: usize = 0;
    while k < names.len()
        invariant
            k <= names@.len(),
            views(names@) == fs,
            self_insert_ok(meta@, ev),
            ev == e@,
            fs == all_stored_fields(meta@, ev),
            params@.len() == k,
            pairs@.len() == k,
            forall|j: int|
                0 <= j < k ==> {
                    let f = #[trigger] fs[j];
                    &&& params@[j].0@ == f
                    &&& params@[j].1 == ev.value_or_null(f)
                    &&& pairs@[j]@ == "`"@ + f + "` = :"@ + f
                },
        decreases names.len() - k,
    {
        let name = names[k].as_str();
        assert(fs[k as int] == name@);
        let value = match e.get(name) {
            Some(v) => v.as_value(),
            None => vstd::pervasive::unreached(),
        };
        let mut pair = concat2("`", name);
        pair.append("` = :");
        pair.append(name);
        pairs.push(pair);
        params.push((owned(name), value));
        k += 1;
    }
    assert(views(pairs@) =~= fs.map_values(|f: Seq<char>| "`"@ + f + "` = :"@ + f));
    assert(param_views(params@) =~= self_insert_params(meta@, ev));
    let fields = join(&pairs, ", ");
    let mut sql = concat2("INSERT INTO `", meta.table_name.as_str());
    sql.append("` SET ");
    sql.append(fields.as_str());
    Statement { sql: sql, params: params }
}

// ---------------------------------------------------------------------------
// Plans and their runs.

/// Why a run stops before it has stored everything.
#[derive(Debug, Clone, Copy, PartialEq, Eq, Structural)]
pub enum Refusal {
    /// The key of an entity is not generated by the database and has no value:
    /// it is NULL or not set.
    KeyNotGenerated,
    /// Metadata or a value that the run reads is missing or of another kind.
    Unreadable,
    /// The plan was made for an update or a delete, which store nothing.
    NotInsert,
    /// The count of affected rows does not fit in 64 bits.
    Overflow,
}

/// One node of a plan: what to do with an entity reached at this node.
#[derive(Debug)]
pub struct PlanNode {
    /// Refuse an entity whose key is neither generated nor NULL.
    pub check_id: bool,
    /// Copy key values along the relations followed.
    pub copy_keys: bool,
    /// The entity is stored; a plan made for an update or a delete is not run.
    pub store_self: bool,
    /// The relations to follow, each with the node of the entities it holds.
    pub withs: Vec<(String, usize)>,
    /// Nodes for particular entities, in place of their relation's node.
    pub entity_withs: Vec<(EntityId, usize)>,
}

pub struct PlanNodeView {
    pub check_id: bool,
    pub copy_keys: bool,
    pub store_self: bool,
    pub withs: Seq<(Seq<char>, usize)>,
    pub entity_withs: Seq<(EntityId, usize)>,
}

pub open spec fn with_views(w: Seq<(String, usize)>) -> Seq<(Seq<char>, usize)> {
    w.map_values(|p: (String, usize)| (p.0@, p.1))
}

impl View for PlanNode {
    type V = PlanNodeView;

    open spec fn view(&self) -> PlanNodeView {
        PlanNodeView {
            check_id: self.check_id,
            copy_keys: self.copy_keys,
            store_self: self.store_self,
            withs: with_views(self.withs@),
            entity_withs: self.entity_withs@,
        }
    }
}

pub open spec fn plan_views(p: Seq<PlanNode>) -> Seq<PlanNodeView> {
    p.map_values(|n: PlanNode| n@)
}

/// The node given for the entity `b` in `s`, the first entry for it winning.
pub open spec fn lookup_entity(s: Seq<(EntityId, usize)>, b: EntityId) -> Option<usize>
    decreases s.len(),
{
    if s.len() == 0 {
        None
    } else {
        let prev = lookup_entity(s.drop_last(), b);
        if prev is Some {
            prev
        } else if s.last().0 == b {
            Some(s.last().1)
        } else {
            None
        }
    }
}

/// The node for the entity `b` reached through the `i`-th relation of `p`.
pub open spec fn child_node(p: PlanNodeView, i: int, b: EntityId) -> usize {
    match lookup_entity(p.entity_withs, b) {
        Some(c) => c,
        None => p.withs[i].1,
    }
}

/// Where the run of one entity stands.
#[derive(Debug)]
pub enum Phase {
    /// Nothing done yet.
    Start,
    /// Following pointers, from the relation with this index on.
    Pointer(usize),
    /// The entity that the pointer with this index holds is stored.
    PointerDone(usize, EntityId),
    /// The entity itself is to be stored.
    Store,
    /// Its `INSERT` is out; the outcome is awaited.
    Stored,
    /// Following one-to-one relations, from this index on.
    OneToOne(usize),
    /// Following one-to-many relations, from this index on.
    OneToMany(usize),
    /// Storing the entities of one one-to-many relation: those still to store.
    Many(usize, Vec<EntityId>),
}

pub enum PhaseView {
    Start,
    Pointer(usize),
    PointerDone(usize, EntityId),
    Store,
    Stored,
    OneToOne(usize),
    OneToMany(usize),
    Many(usize, Seq<EntityId>),
}

impl View for Phase {
    type V = PhaseView;

    open spec fn view(&self) -> PhaseView {
        match self {
            Phase::Start => PhaseView::Start,
            Phase::Pointer(i) => PhaseView::Pointer(*i),
            Phase::PointerDone(i, b) => PhaseView::PointerDone(*i, *b),
            Phase::Store => PhaseView::Store,
            Phase::Stored => PhaseView::Stored,
            Phase::OneToOne(i) => PhaseView::OneToOne(*i),
            Phase::OneToMany(i) => PhaseView::OneToMany(*i),
            Phase::Many(i, rest) => PhaseView::Many(*i, rest@),
        }
    }
}

impl Phase {
    pub fn duplicate(&self) -> (r: Phase)
        ensures
            r@ == self@,
    {
        match self {
            Phase::Start => Phase::Start,
            Phase::Pointer(i) => Phase::Pointer(*i),
            Phase::PointerDone(i, b) => Phase::PointerDone(*i, *b),
            Phase::Store => Phase::Store,
            Phase::Stored => Phase::Stored,
            Phase::OneToOne(i) => Phase::OneToOne(*i),
            Phase::OneToMany(i) => Phase::OneToMany(*i),
            Phase::Many(i, rest) => Phase::Many(*i, rest.clone()),
        }
    }
}

/// An entity being stored, with the plan node it was reached at.
#[derive(Debug)]
pub struct Frame {
    pub node: usize,
    pub entity: EntityId,
    pub phase: Phase,
}

pub struct FrameView {
    pub node: usize,
    pub entity: EntityId,
    pub phase: PhaseView,
}

impl View for Frame {
    type V = FrameView;

    open spec fn view(&self) -> FrameView {
        FrameView { node: self.node, entity: self.entity, phase: self.phase@ }
    }
}

pub open spec fn frame_views(s: Seq<Frame>) -> Seq<FrameView> {
    s.map_values(|f: Frame| f@)
}

/// What the caller of a run does next.
#[derive(Debug)]
pub enum Action {
    /// Call `step` again.
    Continue,
    /// Run this statement, then hand its outcome to `report`.
    Exec(Statement),
    /// Everything is stored; the total of affected rows.
    Done(u64),
    /// The run stops.
    Abort(Refusal),
}

pub enum ActionView {
    Continue,
    Exec(StatementView),
    Done(u64),
    Abort(Refusal),
}

impl View for Action {
    type V = ActionView;

    open spec fn view(&self) -> ActionView {
        match self {
            Action::Continue => ActionView::Continue,
            Action::Exec(st) => ActionView::Exec(st@),
            Action::Done(n) => ActionView::Done(*n),
            Action::Abort(why) => ActionView::Abort(*why),
        }
    }
}

/// A run of a plan over the entities of a store: a stack of the entities
/// being stored, innermost last, and the affected rows counted so far.
#[derive(Debug)]
pub struct Runner {
    pub plan: Vec<PlanNode>,
    pub stack: Vec<Frame>,
    pub total: u64,
}

pub struct RunnerView {
    pub plan: Seq<PlanNodeView>,
    pub stack: Seq<FrameView>,
    pub total: u64,
}

impl View for Runner {
    type V = RunnerView;

    open spec fn view(&self) -> RunnerView {
        RunnerView { plan: plan_views(self.plan@), stack: frame_views(self.stack@), total: self.total }
    }
}

impl RunnerView {
    /// The statement of the innermost entity is out.
    pub open spec fn awaiting(self) -> bool {
        self.stack.len() > 0 && self.stack.last().phase is Stored
    }

    /// The run with the innermost entity moved on to `ph`.
    pub open spec fn with_phase(self, ph: PhaseView) -> RunnerView {
        let t = self.stack.last();
        RunnerView {
            stack: self.stack.update(self.stack.len() - 1, FrameView { node: t.node, entity: t.entity, phase: ph }),
            ..self
        }
    }

    /// The run with the innermost entity moved on to `ph`, and the entity `b`
    /// started at node `c`.
    pub open spec fn with_child(self, ph: PhaseView, c: usize, b: EntityId) -> RunnerView {
        RunnerView {
            stack: self.with_phase(ph).stack.push(FrameView { node: c, entity: b, phase: PhaseView::Start }),
            ..self
        }
    }
}

/// The outcome of a step: the run, the store and the action after it.
pub struct StepView {
    pub runner: RunnerView,
    pub store: Seq<EntityInnerView>,
    pub action: ActionView,
}

pub open spec fn go(r: RunnerView, s: Seq<EntityInnerView>) -> StepView {
    StepView { runner: r, store: s, action: ActionView::Continue }
}

pub open spec fn stop(r: RunnerView, s: Seq<EntityInnerView>, why: Refusal) -> StepView {
    StepView { runner: r, store: s, action: ActionView::Abort(why) }
}

/// Why an entity is refused before anything is done with it, if it is: a key
/// that the database does not generate must have a value.
pub open spec fn start_refusal(check: bool, m: EntityMetaView, e: EntityInnerView) -> Option<Refusal> {
    if !check {
        None
    } else if !id_known(m) {
        Some(Refusal::Unreadable)
    } else if m.id_auto() {
        None
    } else {
        match e.get("id"@) {
            Some(FieldValueView::Value(v)) => if v is NULL {
                Some(Refusal::KeyNotGenerated)
            } else {
                None
            },
            Some(_) => Some(Refusal::Unreadable),
            None => Some(Refusal::KeyNotGenerated),
        }
    }
}

/// The store with the field `name` of each entity of `items` set to `v`, in order.
pub open spec fn set_all(s: Seq<EntityInnerView>, items: Seq<EntityId>, name: Seq<char>, v: FieldValueView) -> Seq<EntityInnerView>
    decreases items.len(),
{
    if items.len() == 0 {
        s
    } else {
        store_set(set_all(s, items.drop_last(), name, v), items.last() as int, name, v)
    }
}

/// Every entity of `items` is in a store of `n` entities.
pub open spec fn all_below(items: Seq<EntityId>, n: int) -> bool {
    forall|j: int| 0 <= j < items.len() ==> #[trigger] items[j] < n
}

/// Looking at the `i`-th relation to follow, for pointers.
pub open spec fn pointer_step(r: RunnerView, m: EntityMetaView, s: Seq<EntityInnerView>, p: PlanNodeView, a: EntityId, i: usize) -> StepView {
    if i >= p.withs.len() {
        go(r.with_phase(PhaseView::Store), s)
    } else {
        let field = p.withs[i as int].0;
        let next = go(r.with_phase(PhaseView::Pointer((i + 1) as usize)), s);
        match m.field(field) {
            None => stop(r, s, Refusal::Unreadable),
            Some(f) => if !f.is_kind(ReferKind::Pointer) {
                next
            } else {
                match s[a as int].get(field) {
                    None => next,
                    Some(FieldValueView::Entity(None)) => next,
                    Some(FieldValueView::Entity(Some(b))) => go(
                        r.with_child(PhaseView::PointerDone(i, b), child_node(p, i as int, b), b),
                        s,
                    ),
                    Some(_) => stop(r, s, Refusal::Unreadable),
                }
            },
        }
    }
}

/// The entity that the `i`-th relation points to is stored: its key is copied
/// into this entity's key field.
pub open spec fn pointer_done_step(r: RunnerView, m: EntityMetaView, s: Seq<EntityInnerView>, p: PlanNodeView, a: EntityId, i: usize, b: EntityId) -> StepView {
    if i >= p.withs.len() {
        stop(r, s, Refusal::Unreadable)
    } else {
        let next = r.with_phase(PhaseView::Pointer((i + 1) as usize));
        if !p.copy_keys {
            go(next, s)
        } else {
            match m.field(p.withs[i as int].0) {
                Some(f) => if !f.is_relation() {
                    stop(r, s, Refusal::Unreadable)
                } else if b < s.len() && s[b as int].get(f.refer_right()) is Some {
                    go(next, store_set(s, a as int, f.refer_left(), s[b as int].get(f.refer_right())->Some_0))
                } else {
                    go(next, s)
                },
                None => stop(r, s, Refusal::Unreadable),
            }
        }
    }
}

/// Looking at the `i`-th relation to follow, for one-to-one relations: this
/// entity's key is copied into the other's key field before it is stored.
pub open spec fn one_one_step(r: RunnerView, m: EntityMetaView, s: Seq<EntityInnerView>, p: PlanNodeView, a: EntityId, i: usize) -> StepView {
    if i >= p.withs.len() {
        go(r.with_phase(PhaseView::OneToMany(0)), s)
    } else {
        let field = p.withs[i as int].0;
        let next = go(r.with_phase(PhaseView::OneToOne((i + 1) as usize)), s);
        match m.field(field) {
            None => stop(r, s, Refusal::Unreadable),
            Some(f) => if !f.is_kind(ReferKind::OneToOne) {
                next
            } else {
                match s[a as int].get(field) {
                    None => next,
                    Some(FieldValueView::Entity(None)) => next,
                    Some(FieldValueView::Entity(Some(b))) => {
                        let s2 = if p.copy_keys && b < s.len() && s[a as int].get(f.refer_left()) is Some {
                            store_set(s, b as int, f.refer_right(), s[a as int].get(f.refer_left())->Some_0)
                        } else {
                            s
                        };
                        go(r.with_child(PhaseView::OneToOne((i + 1) as usize), child_node(p, i as int, b), b), s2)
                    },
                    Some(_) => stop(r, s, Refusal::Unreadable),
                }
            },
        }
    }
}

/// Looking at the `i`-th relation to follow, for one-to-many relations: this
/// entity's key is copied into the key field of each entity the relation
/// holds; past the last relation, the entity is done.
pub open spec fn one_many_step(r: RunnerView, m: EntityMetaView, s: Seq<EntityInnerView>, p: PlanNodeView, a: EntityId, i: usize) -> StepView {
    if i >= p.withs.len() {
        let r2 = RunnerView { stack: r.stack.drop_last(), ..r };
        if r2.stack.len() == 0 {
            StepView { runner: r2, store: s, action: ActionView::Done(r.total) }
        } else {
            go(r2, s)
        }
    } else {
        let field = p.withs[i as int].0;
        let next = go(r.with_phase(PhaseView::OneToMany((i + 1) as usize)), s);
        match m.field(field) {
            None => stop(r, s, Refusal::Unreadable),
            Some(f) => if !f.is_kind(ReferKind::OneToMany) {
                next
            } else {
                match s[a as int].get(field) {
                    None => next,
                    Some(FieldValueView::Vec(items)) => if !all_below(items, s.len() as int) {
                        stop(r, s, Refusal::Unreadable)
                    } else {
                        let s2 = if p.copy_keys && s[a as int].get(f.refer_left()) is Some {
                            set_all(s, items, f.refer_right(), s[a as int].get(f.refer_left())->Some_0)
                        } else {
                            s
                        };
                        go(r.with_phase(PhaseView::Many(i, items)), s2)
                    },
                    Some(_) => stop(r, s, Refusal::Unreadable),
                }
            },
        }
    }
}

/// Storing the next entity of the `i`-th relation, of those in `rest`.
pub open spec fn many_step(r: RunnerView, s: Seq<EntityInnerView>, p: PlanNodeView, i: usize, rest: Seq<EntityId>) -> StepView {
    if i >= p.withs.len() {
        stop(r, s, Refusal::Unreadable)
    } else if rest.len() == 0 {
        go(r.with_phase(PhaseView::OneToMany((i + 1) as usize)), s)
    } else {
        let b = rest[0];
        go(r.with_child(PhaseView::Many(i, rest.drop_first()), child_node(p, i as int, b), b), s)
    }
}

/// One step of a run, on the innermost entity.
pub open spec fn phase_step(r: RunnerView, m: EntityMetaView, s: Seq<EntityInnerView>, p: PlanNodeView, a: EntityId, ph: PhaseView) -> StepView {
    let e = s[a as int];
    match ph {
        PhaseView::Start => match start_refusal(p.check_id, m, e) {
            Some(why) => stop(r, s, why),
            None => go(r.with_phase(PhaseView::Pointer(0)), s),
        },
        PhaseView::Pointer(i) => pointer_step(r, m, s, p, a, i),
        PhaseView::PointerDone(i, b) => pointer_done_step(r, m, s, p, a, i, b),
        PhaseView::Store => if !p.store_self {
            stop(r, s, Refusal::NotInsert)
        } else if !self_insert_ok(m, e) {
            stop(r, s, Refusal::Unreadable)
        } else {
            StepView { runner: r.with_phase(PhaseView::Stored), store: s, action: ActionView::Exec(self_insert(m, e)) }
        },
        PhaseView::Stored => go(r, s),
        PhaseView::OneToOne(i) => one_one_step(r, m, s, p, a, i),
        PhaseView::OneToMany(i) => one_many_step(r, m, s, p, a, i),
        PhaseView::Many(i, rest) => many_step(r, s, p, i, rest),
    }
}

/// One step of a run.
pub open spec fn step_spec(r: RunnerView, orm: OrmMetaView, s: Seq<EntityInnerView>) -> StepView {
    if r.stack.len() == 0 {
        StepView { runner: r, store: s, action: ActionView::Done(r.total) }
    } else {
        let t = r.stack.last();
        if t.node >= r.plan.len() || t.entity >= s.len() {
            stop(r, s, Refusal::Unreadable)
        } else {
            match orm.entity(s[t.entity as int].entity) {
                None => stop(r, s, Refusal::Unreadable),
                Some(m) => phase_step(r, m, s, r.plan[t.node as int], t.entity, t.phase),
            }
        }
    }
}

/// What the outcome of the awaited `INSERT` does: a generated key is recorded
/// in the entity, and the affected rows are counted.
pub open spec fn report_spec(r: RunnerView, orm: OrmMetaView, s: Seq<EntityInnerView>, affected: u64, last_id: u64) -> StepView {
    let a = r.stack.last().entity;
    let generated = a < s.len() && match orm.entity(s[a as int].entity) {
        Some(m) => id_known(m) && m.id_auto(),
        None => false,
    };
    let s2 = if generated {
        store_set(s, a as int, "id"@, FieldValueView::Value(Value::UInt(last_id)))
    } else {
        s
    };
    if r.total + affected > u64::MAX {
        stop(r, s2, Refusal::Overflow)
    } else {
        go(RunnerView { total: (r.total + affected) as u64, ..r.with_phase(PhaseView::OneToOne(0)) }, s2)
    }
}

/// Why an entity is refused before anything is done with it, if it is.
fn start_refusal_of(check: bool, meta: &EntityMeta, e: &EntityInner) -> (r: Option<Refusal>)
    ensures
        r == start_refusal(check, meta@, e@),
{
    if !check {
        None
    } else if !id_field_known(meta) {
        Some(Refusal::Unreadable)
    } else if meta.is_id_auto() {
        None
    } else {
        match e.get("id") {
            Some(FieldValue::Value(v)) => if v.is_null() {
                Some(Refusal::KeyNotGenerated)
            } else {
                None
            },
            Some(_) => Some(Refusal::Unreadable),
            None => Some(Refusal::KeyNotGenerated),
        }
    }
}

/// Whether every entity of `items` is in a store of `n` entities.
fn all_in(items: &Vec<EntityId>, n: usize) -> (r: bool)
    ensures
        r == all_below(items@, n as int),
{
    let mut j: usize = 0;
    while j < items.len()
        invariant
            j <= items@.len(),
            forall|k: int| 0 <= k < j ==> #[trigger] items@[k] < n,
        decreases items.len() - j,
    {
        if items[j] >= n {
            assert(items@[j as int] >= n);
            return false;
        }
        j += 1;
    }
    true
}

impl Runner {
    /// A run of `plan` that starts with the entity `root` at the first node.
    pub fn new(plan: Vec<PlanNode>, root: EntityId) -> (r: Runner)
        ensures
            r@.plan == plan_views(plan@),
            r@.stack == seq![FrameView { node: 0, entity: root, phase: PhaseView::Start }],
            r@.total == 0,
    {
        let mut stack: Vec<Frame> = Vec::new();
        stack.push(Frame { node: 0, entity: root, phase: Phase::Start });
        let r = Runner { plan: plan, stack: stack, total: 0 };
        assert(r@.stack =~= seq![FrameView { node: 0, entity: root, phase: PhaseView::Start }]);
        r
    }

    /// Whether the outcome of a statement is awaited (`report` comes next).
    pub fn awaiting(&self) -> (r: bool)
        ensures
            r == self@.awaiting(),
    {
        let n = self.stack.len();
        if n == 0 {
            false
        } else {
            match self.stack[n - 1].phase {
                Phase::Stored => true,
                _ => false,
            }
        }
    }

    fn set_phase(&mut self, ph: Phase)
        requires
            old(self)@.stack.len() > 0,
        ensures
            final(self)@ == old(self)@.with_phase(ph@),
    {
        let ghost before = self.stack@;
        let ghost v = ph@;
        match self.stack.pop() {
            Some(t) => {
                self.stack.push(Frame { node: t.node, entity: t.entity, phase: ph });
            },
            None => {},
        }
        proof {
            let t = before.last();
            assert(frame_views(self.stack@) =~= frame_views(before).update(
                before.len() - 1,
                FrameView { node: t.node, entity: t.entity, phase: v },
            ));
        }
    }

    fn push_child(&mut self, ph: Phase, c: usize, b: EntityId)
        requires
            old(self)@.stack.len() > 0,
        ensures
            final(self)@ == old(self)@.with_child(ph@, c, b),
    {
        let ghost mid = self@.with_phase(ph@);
        self.set_phase(ph);
        let ghost before = self.stack@;
        self.stack.push(Frame { node: c, entity: b, phase: Phase::Start });
        assert(frame_views(self.stack@) =~= mid.stack.push(FrameView { node: c, entity: b, phase: PhaseView::Start }));
    }

    /// The node for the entity `b` reached through the `i`-th relation of `node`.
    fn child_of(&self, node: usize, i: usize, b: EntityId) -> (r: usize)
        requires
            node < self@.plan.len(),
            i < self@.plan[node as int].withs.len(),
        ensures
            r == child_node(self@.plan[node as int], i as int, b),
    {
        let p = &self.plan[node];
        let ghost ews = p.entity_withs@;
        let mut found: Option<usize> = None;
        let mut j: usize = 0;
        while j < p.entity_withs.len()
            invariant
                j <= ews.len(),
                ews == p.entity_withs@,
                found == lookup_entity(ews.take(j as int), b),
            decreases p.entity_withs.len() - j,
        {
            assert(ews.take(j as int + 1).drop_last() =~= ews.take(j as int));
            if found.is_none() && p.entity_withs[j].0 == b {
                found = Some(p.entity_withs[j].1);
            }
            j += 1;
        }
        assert(ews.take(ews.len() as int) =~= ews);
        match found {
            Some(c) => c,
            None => p.withs[i].1,
        }
    }
}

impl Runner {
    fn pointer(&mut self, meta: &EntityMeta, store: &EntityStore, node: usize, a: EntityId, i: usize) -> (r: Action)
        requires
            old(self)@.stack.len() > 0,
            node < old(self)@.plan.len(),
            a < store@.len(),
        ensures
            pointer_step(old(self)@, meta@, store@, old(self)@.plan[node as int], a, i) == (StepView {
                runner: final(self)@,
                store: store@,
                action: r@,
            }),
    {
        if i >= self.plan[node].withs.len() {
            self.set_phase(Phase::Store);
            return Action::Continue;
        }
        let field = self.plan[node].withs[i].0.clone();
        let f = match meta.get_field(field.as_str()) {
            Some(f) => f,
            None => {
                return Action::Abort(Refusal::Unreadable);
            },
        };
        if !f.is_refer_kind(ReferKind::Pointer) {
            self.set_phase(Phase::Pointer(i + 1));
            return Action::Continue;
        }
        match store.get(a).get(field.as_str()) {
            None => {
                self.set_phase(Phase::Pointer(i + 1));
                Action::Continue
            },
            Some(FieldValue::Entity(None)) => {
                self.set_phase(Phase::Pointer(i + 1));
                Action::Continue
            },
            Some(FieldValue::Entity(Some(b))) => {
                let b = *b;
                let c = self.child_of(node, i, b);
                self.push_child(Phase::PointerDone(i, b), c, b);
                Action::Continue
            },
            Some(_) => Action::Abort(Refusal::Unreadable),
        }
    }

    fn pointer_done(&mut self, meta: &EntityMeta, store: &mut EntityStore, node: usize, a: EntityId, i: usize, b: EntityId) -> (r: Action)
        requires
            old(self)@.stack.len() > 0,
            node < old(self)@.plan.len(),
            a < old(store)@.len(),
        ensures
            pointer_done_step(old(self)@, meta@, old(store)@, old(self)@.plan[node as int], a, i, b) == (StepView {
                runner: final(self)@,
                store: final(store)@,
                action: r@,
            }),
    {
        if i >= self.plan[node].withs.len() {
            return Action::Abort(Refusal::Unreadable);
        }
        if !self.plan[node].copy_keys {
            self.set_phase(Phase::Pointer(i + 1));
            return Action::Continue;
        }
        let field = self.plan[node].withs[i].0.clone();
        let f = match meta.get_field(field.as_str()) {
            Some(f) => f,
            None => {
                return Action::Abort(Refusal::Unreadable);
            },
        };
        if !f.is_type_refer() {
            return Action::Abort(Refusal::Unreadable);
        }
        let (left, right) = f.get_refer_lr();
        if b < store.len() {
            let key = match store.get(b).get(right.as_str()) {
                Some(v) => Some(v.duplicate()),
                None => None,
            };
            match key {
                Some(v) => store.set_field(a, left.as_str(), v),
                None => {},
            }
        }
        self.set_phase(Phase::Pointer(i + 1));
        Action::Continue
    }

    fn one_one(&mut self, meta: &EntityMeta, store: &mut EntityStore, node: usize, a: EntityId, i: usize) -> (r: Action)
        requires
            old(self)@.stack.len() > 0,
            node < old(self)@.plan.len(),
            a < old(store)@.len(),
        ensures
            one_one_step(old(self)@, meta@, old(store)@, old(self)@.plan[node as int], a, i) == (StepView {
                runner: final(self)@,
                store: final(store)@,
                action: r@,
            }),
    {
        if i >= self.plan[node].withs.len() {
            self.set_phase(Phase::OneToMany(0));
            return Action::Continue;
        }
        let field = self.plan[node].withs[i].0.clone();
        let f = match meta.get_field(field.as_str()) {
            Some(f) => f,
            None => {
                return Action::Abort(Refusal::Unreadable);
            },
        };
        if !f.is_refer_kind(ReferKind::OneToOne) {
            self.set_phase(Phase::OneToOne(i + 1));
            return Action::Continue;
        }
        let held = match store.get(a).get(field.as_str()) {
            None => None,
            Some(FieldValue::Entity(e)) => *e,
            Some(_) => {
                return Action::Abort(Refusal::Unreadable);
            },
        };
        match held {
            None => {
                self.set_phase(Phase::OneToOne(i + 1));
                Action::Continue
            },
            Some(b) => {
                if self.plan[node].copy_keys && b < store.len() {
                    let (left, right) = f.get_refer_lr();
                    let key = match store.get(a).get(left.as_str()) {
                        Some(v) => Some(v.duplicate()),
                        None => None,
                    };
                    match key {
                        Some(v) => store.set_field(b, right.as_str(), v),
                        None => {},
                    }
                }
                let c = self.child_of(node, i, b);
                self.push_child(Phase::OneToOne(i + 1), c, b);
                Action::Continue
            },
        }
    }

    /// Sets the field `name` of each entity of `items` to `v`, in order.
    fn set_each(store: &mut EntityStore, items: &Vec<EntityId>, name: &str, v: &FieldValue)
        requires
            all_below(items@, old(store)@.len() as int),
        ensures
            final(store)@ == set_all(old(store)@, items@, name@, v@),
    {
        let ghost s0 = store@;
        let mut j: usize = 0;
        assert(items@.take(0) =~= Seq::<EntityId>::empty());
        while j < items.len()
            invariant
                j <= items@.len(),
                all_below(items@, s0.len() as int),
                store@ == set_all(s0, items@.take(j as int), name@, v@),
                store@.len() == s0.len(),
            decreases items.len() - j,
        {
            assert(items@.take(j as int + 1).drop_last() =~= items@.take(j as int));
            assert(items@[j as int] < s0.len());
            store.set_field(items[j], name, v.duplicate());
            j += 1;
        }
        assert(items@.take(items@.len() as int) =~= items@);
    }

    fn one_many(&mut self, meta: &EntityMeta, store: &mut EntityStore, node: usize, a: EntityId, i: usize) -> (r: Action)
        requires
            old(self)@.stack.len() > 0,
            node < old(self)@.plan.len(),
            a < old(store)@.len(),
        ensures
            one_many_step(old(self)@, meta@, old(store)@, old(self)@.plan[node as int], a, i) == (StepView {
                runner: final(self)@,
                store: final(store)@,
                action: r@,
            }),
    {
        if i >= self.plan[node].withs.len() {
            let ghost before = self.stack@;
            self.stack.pop();
            assert(frame_views(self.stack@) =~= frame_views(before).drop_last());
            if self.stack.len() == 0 {
                return Action::Done(self.total);
            }
            return Action::Continue;
        }
        let field = self.plan[node].withs[i].0.clone();
        let f = match meta.get_field(field.as_str()) {
            Some(f) => f,
            None => {
                return Action::Abort(Refusal::Unreadable);
            },
        };
        if !f.is_refer_kind(ReferKind::OneToMany) {
            self.set_phase(Phase::OneToMany(i + 1));
            return Action::Continue;
        }
        let items = match store.get(a).get(field.as_str()) {
            None => {
                self.set_phase(Phase::OneToMany(i + 1));
                return Action::Continue;
            },
            Some(FieldValue::Vec(items)) => items.clone(),
            Some(_) => {
                return Action::Abort(Refusal::Unreadable);
            },
        };
        if !all_in(&items, store.len()) {
            return Action::Abort(Refusal::Unreadable);
        }
        if self.plan[node].copy_keys {
            let (left, right) = f.get_refer_lr();
            let key = match store.get(a).get(left.as_str()) {
                Some(v) => Some(v.duplicate()),
                None => None,
            };
            match key {
                Some(v) => Self::set_each(store, &items, right.as_str(), &v),
                None => {},
            }
        }
        self.set_phase(Phase::Many(i, items));
        Action::Continue
    }

    fn many(&mut self, node: usize, i: usize, rest: Vec<EntityId>) -> (r: Action)
        requires
            old(self)@.stack.len() > 0,
            node < old(self)@.plan.len(),
        ensures
            forall|s: Seq<EntityInnerView>|
                many_step(old(self)@, s, old(self)@.plan[node as int], i, rest@) == (StepView {
                    runner: final(self)@,
                    store: s,
                    action: r@,
                }),
    {
        if i >= self.plan[node].withs.len() {
            return Action::Abort(Refusal::Unreadable);
        }
        if rest.len() == 0 {
            self.set_phase(Phase::OneToMany(i + 1));
            return Action::Continue;
        }
        let mut rest = rest;
        let ghost before = rest@;
        let b = rest.remove(0);
        assert(rest@ =~= before.drop_first());
        let c = self.child_of(node, i, b);
        self.push_child(Phase::Many(i, rest), c, b);
        Action::Continue
    }
}

impl Runner {
    /// Does the next piece of work of the run: the store is changed in memory,
    /// or the `INSERT` of an entity is handed out, or the run ends.
    pub fn step(&mut self, orm: &OrmMeta, store: &mut EntityStore) -> (r: Action)
        requires
            !old(self)@.awaiting(),
        ensures
            step_spec(old(self)@, orm@, old(store)@) == (StepView {
                runner: final(self)@,
                store: final(store)@,
                action: r@,
            }),
    {
        let n = self.stack.len();
        if n == 0 {
            return Action::Done(self.total);
        }
        let node = self.stack[n - 1].node;
        let a = self.stack[n - 1].entity;
        if node >= self.plan.len() || a >= store.len() {
            return Action::Abort(Refusal::Unreadable);
        }
        let meta = match orm.get_entity(store.get(a).entity.as_str()) {
            Some(m) => m,
            None => {
                return Action::Abort(Refusal::Unreadable);
            },
        };
        let phase = self.stack[n - 1].phase.duplicate();
        match phase {
            Phase::Start => match start_refusal_of(self.plan[node].check_id, meta, store.get(a)) {
                Some(why) => Action::Abort(why),
                None => {
                    self.set_phase(Phase::Pointer(0));
                    Action::Continue
                },
            },
            Phase::Pointer(i) => self.pointer(meta, store, node, a, i),
            Phase::PointerDone(i, b) => self.pointer_done(meta, store, node, a, i, b),
            Phase::Store => {
                if !self.plan[node].store_self {
                    return Action::Abort(Refusal::NotInsert);
                }
                if !self_insert_readable(meta, store.get(a)) {
                    return Action::Abort(Refusal::Unreadable);
                }
                let st = self_insert_statement(meta, store.get(a));
                self.set_phase(Phase::Stored);
                Action::Exec(st)
            },
            Phase::Stored => Action::Continue,
            Phase::OneToOne(i) => self.one_one(meta, store, node, a, i),
            Phase::OneToMany(i) => self.one_many(meta, store, node, a, i),
            Phase::Many(i, rest) => self.many(node, i, rest),
        }
    }

    /// Takes the outcome of the awaited `INSERT`: the rows it affected and the
    /// key the database generated.
    pub fn report(&mut self, orm: &OrmMeta, store: &mut EntityStore, affected: u64, last_id: u64) -> (r: Action)
        requires
            old(self)@.awaiting(),
        ensures
            report_spec(old(self)@, orm@, old(store)@, affected, last_id) == (StepView {
                runner: final(self)@,
                store: final(store)@,
                action: r@,
            }),
    {
        let a = self.stack[self.stack.len() - 1].entity;
        let generated = if a < store.len() {
            match orm.get_entity(store.get(a).entity.as_str()) {
                Some(m) => id_field_known(m) && m.is_id_auto(),
                None => false,
            }
        } else {
            false
        };
        if generated {
            store.set_field(a, "id", FieldValue::Value(Value::UInt(last_id)));
        }
        match self.total.checked_add(affected) {
            None => Action::Abort(Refusal::Overflow),
            Some(t) => {
                self.set_phase(Phase::OneToOne(0));
                self.total = t;
                Action::Continue
            },
        }
    }
}

} // verus!
