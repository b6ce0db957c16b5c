//! Storing an entity with the entities that its relations hold, as far as an
//! `Insert` tree says to follow them.
//!
//! The tree is turned into a plan (`plan.rs`) whose run stores the entities
//! one `INSERT` at a time.
use vstd::prelude::*;

use crate::meta::{Cascade, EntityMeta, EntityMetaView, FieldMetaView, OrmMeta, OrmMetaView};
use crate::plan::{plan_views, with_views, PlanNode, PlanNodeView, Runner};
use crate::text::owned;
use crate::value::EntityId;

verus! {

/// The relations to follow when an entity is stored: each field named here is
/// followed, and the entities it holds are stored as the sub-tree says.
#[derive(Debug)]
pub struct Insert {
    pub withs: Vec<(String, Insert)>,
}

// ---------------------------------------------------------------------------
// The plan of a tree: its nodes in pre-order, the root first.

pub open spec fn insert_width(ins: Insert) -> int {
    (ins.withs@.len() + 1) as int
}

/// A followed relation's tree is smaller than the tree that follows it.
pub proof fn lemma_insert_decreases(ins: Insert, i: int)
    requires
        0 <= i < ins.withs@.len(),
    ensures
        decreases_to!(ins => ins.withs@[i].1),
{
    assert(decreases_to!(ins => ins.withs));
    assert(decreases_to!(ins.withs => ins.withs@));
    assert(decreases_to!(ins.withs@ => ins.withs@[i]));
    assert(decreases_to!(ins.withs@[i] => ins.withs@[i].1));
}

/// The plan nodes of the tree `ins`, numbered from `base`.
pub open spec fn insert_nodes(ins: Insert, base: int) -> Seq<PlanNodeView>
    decreases ins, insert_width(ins),
{
    seq![
        PlanNodeView {
            check_id: true,
            copy_keys: true,
            store_self: true,
            withs: insert_links(ins, base, ins.withs@.len() as int),
            entity_withs: Seq::empty(),
        },
    ] + insert_subnodes(ins, base, ins.withs@.len() as int)
}

/// The first `n` followed relations of the root, each with the number of the
/// node that its sub-tree starts at.
pub open spec fn insert_links(ins: Insert, base: int, n: int) -> Seq<(Seq<char>, usize)>
    decreases ins, n,
{
    if n <= 0 || n > ins.withs@.len() {
        Seq::empty()
    } else {
        insert_links(ins, base, n - 1).push(
            (ins.withs@[n - 1].0@, (base + 1 + insert_subnodes(ins, base, n - 1).len()) as usize),
        )
    }
}

/// The nodes of the first `n` sub-trees, numbered after the root's.
pub open spec fn insert_subnodes(ins: Insert, base: int, n: int) -> Seq<PlanNodeView>
    decreases ins, n,
{
    if n <= 0 || n > ins.withs@.len() {
        Seq::empty()
    } else {
        proof {
            lemma_insert_decreases(ins, n - 1);
        }
        let prev = insert_subnodes(ins, base, n - 1);
        prev + insert_nodes(ins.withs@[n - 1].1, base + 1 + prev.len())
    }
}

/// The plan of a whole tree.
pub open spec fn insert_plan(ins: Insert) -> Seq<PlanNodeView> {
    insert_nodes(ins, 0)
}

// ---------------------------------------------------------------------------
// The tree that the cascade marks of the metadata give.

/// The fields of `m`, among its first `k` in declaration order, that are
/// relations cascading insertion.
pub open spec fn cascaded(m: EntityMetaView, k: int) -> Seq<Seq<char>>
    decreases k,
{
    if k <= 0 || k > m.field_vec.len() {
        Seq::empty()
    } else {
        let name = m.field_vec[k - 1];
        let prev = cascaded(m, k - 1);
        match m.field(name) {
            Some(f) => if f.is_relation() && f.has_cascade(Cascade::Insert) {
                prev.push(name)
            } else {
                prev
            },
            None => prev,
        }
    }
}

pub open spec fn cascaded_fields(m: EntityMetaView) -> Seq<Seq<char>> {
    cascaded(m, m.field_vec.len() as int)
}

/// The entity type that the relation `name` of `m` holds.
pub open spec fn target_of(orm: OrmMetaView, m: EntityMetaView, name: Seq<char>) -> Option<EntityMetaView> {
    orm.entity(m.field(name)->Some_0.refer_entity())
}

/// Following the cascading relations from `m` reaches known types only, and
/// ends within `n` levels.
pub open spec fn cascade_ok(orm: OrmMetaView, m: EntityMetaView, n: nat) -> bool
    decreases n,
{
    &&& n > 0
    &&& m.fields_known()
    &&& forall|j: int|
        0 <= j < cascaded_fields(m).len() ==> {
            let t = #[trigger] target_of(orm, m, cascaded_fields(m)[j]);
            &&& t is Some
            &&& cascade_ok(orm, t->Some_0, (n - 1) as nat)
        }
}

/// `ins` follows exactly the cascading relations from `m`, in declaration
/// order, down `n` levels.
pub open spec fn is_default_insert(orm: OrmMetaView, m: EntityMetaView, ins: Insert, n: nat) -> bool
    decreases n,
{
    let names = cascaded_fields(m);
    &&& ins.withs@.len() == names.len()
    &&& forall|j: int|
        0 <= j < names.len() ==> {
            &&& (#[trigger] ins.withs@[j]).0@ == names[j]
            &&& n > 0 ==> is_default_insert(orm, target_of(orm, m, names[j])->Some_0, ins.withs@[j].1, (n - 1) as nat)
        }
}

impl Insert {
    /// A tree that follows no relation: only the entity itself is stored.
    pub fn new() -> (r: Insert)
        ensures
            r.withs@.len() == 0,
    {
        Insert { withs: Vec::new() }
    }

    /// Follows the relation `field` too; the new sub-tree, which follows
    /// nothing yet, is returned.
    pub fn with(&mut self, field: &str) -> (r: &mut Insert)
        ensures
            r.withs@.len() == 0,
            final(self).withs@.len() == old(self).withs@.len() + 1,
            final(self).withs@.drop_last() == old(self).withs@,
            final(self).withs@.last().0@ == field@,
            final(self).withs@.last().1 == *final(r),
    {
        self.withs.push((owned(field), Insert::new()));
        let n = self.withs.len();
        &mut self.withs[n - 1].1
    }

    /// The names of the cascading relations of `meta`.
    fn cascaded_names(meta: &EntityMeta) -> (r: Vec<String>)
        ensures
            crate::text::views(r@) == cascaded_fields(meta@),
    {
        let mut r: Vec<String> = Vec::new();
        let mut i: usize = 0;
        while i < meta.field_vec.len()
            invariant
                i <= meta.field_vec@.len(),
                crate::text::views(r@) == cascaded(meta@, i as int),
            decreases meta.field_vec.len() - i,
        {
            let name = meta.field_vec[i].as_str();
            assert(meta@.field_vec[i as int] == name@);
            match meta.get_field(name) {
                Some(f) => {
                    if f.is_type_refer() && f.has_cascade_insert() {
                        let ghost before = r@;
                        r.push(owned(name));
                        assert(crate::text::views(r@) =~= crate::text::views(before).push(name@));
                    }
                },
                None => {},
            }
            i += 1;
        }
        r
    }

    /// Whether the cascading relations from `meta` reach known types only and
    /// end within `n` levels.
    pub fn cascade_within(meta: &EntityMeta, orm: &OrmMeta, n: u64) -> (r: bool)
        ensures
            r == cascade_ok(orm@, meta@, n as nat),
        decreases n,
    {
        if n == 0 || !meta.fields_known_checked() {
            return false;
        }
        let names = Self::cascaded_names(meta);
        let ghost fs = cascaded_fields(meta@);
        let mut j: usize = 0;
        while j < names.len()
            invariant
                j <= names@.len(),
                n > 0,
                crate::text::views(names@) == fs,
                fs == cascaded_fields(meta@),
                forall|k: int|
                    0 <= k < j ==> {
                        let t = #[trigger] target_of(orm@, meta@, fs[k]);
                        &&& t is Some
                        &&& cascade_ok(orm@, t->Some_0, (n - 1) as nat)
                    },
            decreases names.len() - j,
        {
            let name = names[j].as_str();
            assert(fs[j as int] == name@);
            proof {
                lemma_cascaded_relation(meta@, meta@.field_vec.len() as int, j as int);
            }
            let f = match meta.get_field(name) {
                Some(f) => f,
                None => vstd::pervasive::unreached(),
            };
            let target = orm.get_entity(f.get_refer_entity().as_str());
            match target {
                Some(t) => {
                    if !Self::cascade_within(t, orm, n - 1) {
                        assert(!cascade_ok(orm@, target_of(orm@, meta@, fs[j as int])->Some_0, (n - 1) as nat));
                        return false;
                    }
                },
                None => {
                    assert(target_of(orm@, meta@, fs[j as int]) is None);
                    return false;
                },
            }
            j += 1;
        }
        true
    }
}

impl Insert {
    /// The tree that follows the cascading relations from `meta`, down `n` levels.
    fn default_within(meta: &EntityMeta, orm: &OrmMeta, n: u64) -> (r: Insert)
        requires
            cascade_ok(orm@, meta@, n as nat),
        ensures
            is_default_insert(orm@, meta@, r, n as nat),
        decreases n,
    {
        let names = Self::cascaded_names(meta);
        let ghost fs = cascaded_fields(meta@);
        let mut withs: Vec<(String, Insert)> = Vec::new();
        let mut j: usize = 0;
        while j < names.len()
            invariant
                j <= names@.len(),
                n > 0,
                crate::text::views(names@) == fs,
                fs == cascaded_fields(meta@),
                cascade_ok(orm@, meta@, n as nat),
                withs@.len() == j,
                forall|k: int|
                    0 <= k < j ==> {
                        &&& (#[trigger] withs@[k]).0@ == fs[k]
                        &&& is_default_insert(orm@, target_of(orm@, meta@, fs[k])->Some_0, withs@[k].1, (n - 1) as nat)
                    },
            decreases names.len() - j,
        {
            let name = names[j].as_str();
            assert(fs[j as int] == name@);
            proof {
                lemma_cascaded_relation(meta@, meta@.field_vec.len() as int, j as int);
            }
            let f = match meta.get_field(name) {
                Some(f) => f,
                None => vstd::pervasive::unreached(),
            };
            assert(target_of(orm@, meta@, fs[j as int]) is Some);
            let t = match orm.get_entity(f.get_refer_entity().as_str()) {
                Some(t) => t,
                None => vstd::pervasive::unreached(),
            };
            let sub = Self::default_within(t, orm, n - 1);
            withs.push((owned(name), sub));
            j += 1;
        }
        Insert { withs: withs }
    }

    /// The tree that follows, from an entity of type `meta`, every relation
    /// that cascades insertion, and from the entities those hold the same way.
    /// `None` where a relation names an unknown type or field, or where the
    /// cascading relations run around a cycle (deeper than there are types).
    pub fn default_meta(meta: &EntityMeta, orm: &OrmMeta) -> (r: Option<Insert>)
        ensures
            r is Some <==> orm@.entity_map.len() < u64::MAX && cascade_ok(
                orm@,
                meta@,
                (orm@.entity_map.len() + 1) as nat,
            ),
            r matches Some(ins) ==> is_default_insert(orm@, meta@, ins, (orm@.entity_map.len() + 1) as nat),
    {
        let k = orm.entity_map.len() as u64;
        if k == u64::MAX {
            return None;
        }
        if !Self::cascade_within(meta, orm, k + 1) {
            return None;
        }
        Some(Self::default_within(meta, orm, k + 1))
    }

    /// Appends the plan nodes of this tree to `out`, numbered from its length.
    fn flatten(&self, out: &mut Vec<PlanNode>)
        ensures
            plan_views(final(out)@) == plan_views(old(out)@) + insert_nodes(*self, old(out)@.len() as int),
        decreases self,
    {
        let ghost start = plan_views(out@);
        let base = out.len();
        out.push(PlanNode { check_id: true, copy_keys: true, store_self: true, withs: Vec::new(), entity_withs: Vec::new() });
        let ghost first = out@[base as int]@;
        assert(plan_views(out@) =~= start.push(first));
        let mut links: Vec<(String, usize)> = Vec::new();
        let mut i: usize = 0;
        assert(insert_subnodes(*self, base as int, 0) =~= Seq::<PlanNodeView>::empty());
        assert(with_views(links@) =~= insert_links(*self, base as int, 0));
        while i < self.withs.len()
            invariant
                i <= self.withs@.len(),
                base == start.len(),
                plan_views(out@) == start.push(first) + insert_subnodes(*self, base as int, i as int),
                with_views(links@) == insert_links(*self, base as int, i as int),
            decreases self.withs.len() - i,
        {
            proof {
                lemma_insert_decreases(*self, i as int);
            }
            let ghost before = plan_views(out@);
            let idx = out.len();
            self.withs[i].1.flatten(out);
            let ghost linked = links@;
            links.push((self.withs[i].0.clone(), idx));
            assert(with_views(links@) =~= with_views(linked).push((self.withs@[i as int].0@, idx)));
            assert(plan_views(out@) =~= start.push(first) + insert_subnodes(*self, base as int, i as int + 1));
            i += 1;
        }
        let ghost before = out@;
        let node = PlanNode { check_id: true, copy_keys: true, store_self: true, withs: links, entity_withs: Vec::new() };
        let ghost nv = node@;
        out.set(base, node);
        assert(nv.entity_withs =~= Seq::<(EntityId, usize)>::empty());
        assert(plan_views(out@) =~= plan_views(before).update(base as int, nv));
        assert(plan_views(out@) =~= start + insert_nodes(*self, base as int));
    }

    /// The plan that stores an entity as this tree says.
    pub fn plan(&self) -> (r: Vec<PlanNode>)
        ensures
            plan_views(r@) == insert_plan(*self),
    {
        let mut out: Vec<PlanNode> = Vec::new();
        self.flatten(&mut out);
        assert(plan_views(out@) =~= insert_plan(*self));
        out
    }

    /// A run that stores the entity `root` of the store, and the entities its
    /// relations hold, as this tree says.
    pub fn start(&self, root: EntityId) -> (r: Runner)
        ensures
            r@.plan == insert_plan(*self),
            r@.stack == seq![crate::plan::FrameView { node: 0, entity: root, phase: crate::plan::PhaseView::Start }],
            r@.total == 0,
    {
        Runner::new(self.plan(), root)
    }
}

/// Each cascaded field is a relation of `m`.
pub proof fn lemma_cascaded_relation(m: EntityMetaView, k: int, j: int)
    requires
        0 <= j < cascaded(m, k).len(),
    ensures
        m.field(cascaded(m, k)[j]) matches Some(f) && f.is_relation(),
    decreases k,
{
    if k > 0 && k <= m.field_vec.len() {
        let prev = cascaded(m, k - 1);
        if j < prev.len() {
            lemma_cascaded_relation(m, k - 1, j);
        }
    }
}

} // verus!
