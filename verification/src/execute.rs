//! Storing one entity by an operation chosen up front.
//!
//! An `Execute` made for insertion stores the entity; one made for an update
//! or a delete cannot be run (its run stops with `Refusal::NotInsert`).
use vstd::prelude::*;

use crate::meta::Cascade;
use crate::plan::{plan_views, with_views, FrameView, PhaseView, PlanNode, PlanNodeView, Runner};
use crate::value::EntityId;

verus! {

/// An operation on an entity: insertion, update or deletion, with the
/// operations to apply along relations (`field_withs`), and those to apply to
/// particular entities in their place (`entity_withs`).
#[derive(Debug)]
pub struct Execute {
    pub cascade: Cascade,
    pub field_withs: Vec<(String, Execute)>,
    pub entity_withs: Vec<(EntityId, Execute)>,
}

pub proof fn lemma_field_with_decreases(ex: Execute, i: int)
    requires
        0 <= i < ex.field_withs@.len(),
    ensures
        decreases_to!(ex => ex.field_withs@[i].1),
{
    assert(decreases_to!(ex => ex.field_withs));
    assert(decreases_to!(ex.field_withs => ex.field_withs@));
    assert(decreases_to!(ex.field_withs@ => ex.field_withs@[i]));
    assert(decreases_to!(ex.field_withs@[i] => ex.field_withs@[i].1));
}

pub proof fn lemma_entity_with_decreases(ex: Execute, i: int)
    requires
        0 <= i < ex.entity_withs@.len(),
    ensures
        decreases_to!(ex => ex.entity_withs@[i].1),
{
    assert(decreases_to!(ex => ex.entity_withs));
    assert(decreases_to!(ex.entity_withs => ex.entity_withs@));
    assert(decreases_to!(ex.entity_withs@ => ex.entity_withs@[i]));
    assert(decreases_to!(ex.entity_withs@[i] => ex.entity_withs@[i].1));
}

/// The plan nodes of the operation tree `ex`, numbered from `base`, in
/// pre-order: the root, the sub-trees of `field_withs`, then those of
/// `entity_withs`.
pub open spec fn execute_nodes(ex: Execute, base: int) -> Seq<PlanNodeView>
    decreases ex, 3int, 0int,
{
    seq![
        PlanNodeView {
            check_id: false,
            copy_keys: ex.cascade == Cascade::Insert,
            store_self: ex.cascade == Cascade::Insert,
            withs: field_links(ex, base, ex.field_withs@.len() as int),
            entity_withs: entity_links(ex, base, ex.entity_withs@.len() as int),
        },
    ] + field_subnodes(ex, base, ex.field_withs@.len() as int) + entity_subnodes(
        ex,
        base,
        ex.entity_withs@.len() as int,
    )
}

pub open spec fn field_links(ex: Execute, base: int, n: int) -> Seq<(Seq<char>, usize)>
    decreases ex, 0int, n,
{
    if n <= 0 || n > ex.field_withs@.len() {
        Seq::empty()
    } else {
        field_links(ex, base, n - 1).push(
            (ex.field_withs@[n - 1].0@, (base + 1 + field_subnodes(ex, base, n - 1).len()) as usize),
        )
    }
}

pub open spec fn field_subnodes(ex: Execute, base: int, n: int) -> Seq<PlanNodeView>
    decreases ex, 0int, n,
{
    if n <= 0 || n > ex.field_withs@.len() {
        Seq::empty()
    } else {
        proof {
            lemma_field_with_decreases(ex, n - 1);
        }
        let prev = field_subnodes(ex, base, n - 1);
        prev + execute_nodes(ex.field_withs@[n - 1].1, base + 1 + prev.len())
    }
}

/// Where the sub-trees of `entity_withs` start: after the root and the
/// sub-trees of `field_withs`.
pub open spec fn entity_base(ex: Execute, base: int) -> int
    decreases ex, 1int, 0int,
{
    base + 1 + field_subnodes(ex, base, ex.field_withs@.len() as int).len()
}

pub open spec fn entity_links(ex: Execute, base: int, n: int) -> Seq<(EntityId, usize)>
    decreases ex, 2int, n,
{
    if n <= 0 || n > ex.entity_withs@.len() {
        Seq::empty()
    } else {
        entity_links(ex, base, n - 1).push(
            (ex.entity_withs@[n - 1].0, (entity_base(ex, base) + entity_subnodes(ex, base, n - 1).len()) as usize),
        )
    }
}

pub open spec fn entity_subnodes(ex: Execute, base: int, n: int) -> Seq<PlanNodeView>
    decreases ex, 2int, n,
{
    if n <= 0 || n > ex.entity_withs@.len() {
        Seq::empty()
    } else {
        proof {
            lemma_entity_with_decreases(ex, n - 1);
        }
        let prev = entity_subnodes(ex, base, n - 1);
        prev + execute_nodes(ex.entity_withs@[n - 1].1, entity_base(ex, base) + prev.len())
    }
}

/// The plan of a whole operation tree.
pub open spec fn execute_plan(ex: Execute) -> Seq<PlanNodeView> {
    execute_nodes(ex, 0)
}

impl Execute {
    pub fn insert() -> (r: Execute)
        ensures
            r.cascade == Cascade::Insert,
            r.field_withs@.len() == 0,
            r.entity_withs@.len() == 0,
    {
        Execute { cascade: Cascade::Insert, field_withs: Vec::new(), entity_withs: Vec::new() }
    }

    pub fn update() -> (r: Execute)
        ensures
            r.cascade == Cascade::Update,
            r.field_withs@.len() == 0,
            r.entity_withs@.len() == 0,
    {
        Execute { cascade: Cascade::Update, field_withs: Vec::new(), entity_withs: Vec::new() }
    }

    pub fn delete() -> (r: Execute)
        ensures
            r.cascade == Cascade::Delete,
            r.field_withs@.len() == 0,
            r.entity_withs@.len() == 0,
    {
        Execute { cascade: Cascade::Delete, field_withs: Vec::new(), entity_withs: Vec::new() }
    }

    /// Appends the plan nodes of this tree to `out`, numbered from its length.
    fn flatten(&self, out: &mut Vec<PlanNode>)
        ensures
            plan_views(final(out)@) == plan_views(old(out)@) + execute_nodes(*self, old(out)@.len() as int),
        decreases self,
    {
        let ghost start = plan_views(out@);
        let inserting = self.cascade == Cascade::Insert;
        let base = out.len();
        out.push(
            PlanNode {
                check_id: false,
                copy_keys: inserting,
                store_self: inserting,
                withs: Vec::new(),
                entity_withs: Vec::new(),
            },
        );
        let ghost first = out@[base as int]@;
        assert(plan_views(out@) =~= start.push(first));
        let mut links: Vec<(String, usize)> = Vec::new();
        let mut i: usize = 0;
        assert(field_subnodes(*self, base as int, 0) =~= Seq::<PlanNodeView>::empty());
        assert(with_views(links@) =~= field_links(*self, base as int, 0));
        while i < self.field_withs.len()
            invariant
                i <= self.field_withs@.len(),
                base == start.len(),
                plan_views(out@) == start.push(first) + field_subnodes(*self, base as int, i as int),
                with_views(links@) == field_links(*self, base as int, i as int),
            decreases self.field_withs.len() - i,
        {
            proof {
                lemma_field_with_decreases(*self, i as int);
            }
            let idx = out.len();
            self.field_withs[i].1.flatten(out);
            let ghost linked = links@;
            links.push((self.field_withs[i].0.clone(), idx));
            assert(with_views(links@) =~= with_views(linked).push((self.field_withs@[i as int].0@, idx)));
            assert(plan_views(out@) =~= start.push(first) + field_subnodes(*self, base as int, i as int + 1));
            i += 1;
        }
        let ghost fields_done = plan_views(out@);
        assert(out@.len() == entity_base(*self, base as int));
        let mut elinks: Vec<(EntityId, usize)> = Vec::new();
        let mut k: usize = 0;
        assert(entity_subnodes(*self, base as int, 0) =~= Seq::<PlanNodeView>::empty());
        assert(elinks@ =~= entity_links(*self, base as int, 0));
        while k < self.entity_withs.len()
            invariant
                k <= self.entity_withs@.len(),
                base == start.len(),
                fields_done == start.push(first) + field_subnodes(*self, base as int, self.field_withs@.len() as int),
                fields_done.len() == entity_base(*self, base as int),
                plan_views(out@) == fields_done + entity_subnodes(*self, base as int, k as int),
                elinks@ == entity_links(*self, base as int, k as int),
            decreases self.entity_withs.len() - k,
        {
            proof {
                lemma_entity_with_decreases(*self, k as int);
            }
            let idx = out.len();
            self.entity_withs[k].1.flatten(out);
            elinks.push((self.entity_withs[k].0, idx));
            assert(plan_views(out@) =~= fields_done + entity_subnodes(*self, base as int, k as int + 1));
            k += 1;
        }
        let ghost before = out@;
        let node = PlanNode {
            check_id: false,
            copy_keys: inserting,
            store_self: inserting,
            withs: links,
            entity_withs: elinks,
        };
        let ghost nv = node@;
        out.set(base, node);
        assert(plan_views(out@) =~= plan_views(before).update(base as int, nv));
        assert(plan_views(out@) =~= start + execute_nodes(*self, base as int));
    }

    /// The plan that runs this operation tree.
    pub fn plan(&self) -> (r: Vec<PlanNode>)
        ensures
            plan_views(r@) == execute_plan(*self),
    {
        let mut out: Vec<PlanNode> = Vec::new();
        self.flatten(&mut out);
        assert(plan_views(out@) =~= execute_plan(*self));
        out
    }

    /// A run of the operation on the entity `root` of the store.
    pub fn start(&self, root: EntityId) -> (r: Runner)
        ensures
            r@.plan == execute_plan(*self),
            r@.stack == seq![FrameView { node: 0, entity: root, phase: PhaseView::Start }],
            r@.total == 0,
    {
        Runner::new(self.plan(), root)
    }
}

} // verus!
