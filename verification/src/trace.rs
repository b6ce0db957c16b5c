//! The recursive reading of a run.
//!
//! A run hands out one statement at a time; read recursively, storing an
//! entity is: follow its pointers (storing each entity they hold, then taking
//! its key), store the entity itself, then follow its one-to-one relations and
//! its one-to-many relations (giving each entity they hold this entity's key,
//! then storing it). `entity_run` says this, with the database's answers taken
//! in order from a list; `law_insert_run_is_recursive` (in `laws.rs`) shows that the
//! step-by-step run does exactly this.
use vstd::prelude::*;

use crate::entity::{store_set, EntityInnerView, StatementView};
use crate::meta::{EntityMetaView, OrmMetaView, ReferKind};
use crate::plan::{
    all_below, child_node, id_known, report_spec, self_insert, self_insert_ok, set_all, start_refusal, step_spec,
    ActionView, FrameView, PhaseView, PlanNodeView, Refusal, RunnerView,
};
use crate::value::{EntityId, FieldValueView, Value};

verus! {

/// What a run works with: its plan, the metadata, and the database's answers
/// (rows affected, key generated) to its statements, in order.
pub struct Ctx {
    pub plan: Seq<PlanNodeView>,
    pub orm: OrmMetaView,
    pub db: Seq<(u64, u64)>,
}

/// The answer to the `k`-th statement.
pub open spec fn reply(c: Ctx, k: nat) -> (u64, u64) {
    if k < c.db.len() {
        c.db[k as int]
    } else {
        (0, 0)
    }
}

/// Where a recursive reading stands: the store, the answers used, the rows
/// counted, the statements handed out, the steps taken, and why it stopped.
pub struct Big {
    pub s: Seq<EntityInnerView>,
    pub k: nat,
    pub total: u64,
    pub out: Seq<StatementView>,
    pub steps: nat,
    pub stop: Option<Refusal>,
}

pub open spec fn tick(st: Big) -> Big {
    Big { steps: st.steps + 1, ..st }
}

pub open spec fn halt(st: Big, why: Refusal) -> Big {
    Big { steps: st.steps + 1, stop: Some(why), ..st }
}

/// The type of the entity `a` at node `n`, where both exist.
pub open spec fn meta_at(c: Ctx, s: Seq<EntityInnerView>, n: usize, a: EntityId) -> Option<EntityMetaView> {
    if n < c.plan.len() && a < s.len() {
        c.orm.entity(s[a as int].entity)
    } else {
        None
    }
}

/// The node that the entity `b` of the `i`-th relation of `n` is stored at,
/// where it comes after `n` in the plan.
pub open spec fn forward_child(c: Ctx, n: usize, i: int, b: EntityId) -> Option<usize> {
    let ch = child_node(c.plan[n as int], i, b);
    if n < ch < c.plan.len() {
        Some(ch)
    } else {
        None
    }
}

/// Storing the entity `a` at node `n`, from the start.
pub open spec fn entity_run(c: Ctx, n: usize, a: EntityId, st: Big) -> Big
    decreases c.plan.len() - n, 6int, 0int, 0int, 0int,
{
    match meta_at(c, st.s, n, a) {
        None => halt(st, Refusal::Unreadable),
        Some(m) => match start_refusal(c.plan[n as int].check_id, m, st.s[a as int]) {
            Some(why) => halt(st, why),
            None => pointers_run(c, n, a, 0, tick(st)),
        },
    }
}

/// Following the pointers of `a`, from the `i`-th relation on.
pub open spec fn pointers_run(c: Ctx, n: usize, a: EntityId, i: int, st: Big) -> Big
    decreases c.plan.len() - n, 5int, c.plan[n as int].withs.len() - i, 1int, 0int,
{
    match meta_at(c, st.s, n, a) {
        None => halt(st, Refusal::Unreadable),
        Some(m) => {
            let p = c.plan[n as int];
            if i >= p.withs.len() {
                store_run(c, n, a, tick(st))
            } else {
                let field = p.withs[i].0;
                match m.field(field) {
                    None => halt(st, Refusal::Unreadable),
                    Some(f) => if !f.is_kind(ReferKind::Pointer) {
                        pointers_run(c, n, a, i + 1, tick(st))
                    } else {
                        match st.s[a as int].get(field) {
                            None => pointers_run(c, n, a, i + 1, tick(st)),
                            Some(FieldValueView::Entity(None)) => pointers_run(c, n, a, i + 1, tick(st)),
                            Some(FieldValueView::Entity(Some(b))) => match forward_child(c, n, i, b) {
                                None => halt(st, Refusal::Unreadable),
                                Some(ch) => {
                                    let st1 = entity_run(c, ch, b, tick(st));
                                    if st1.stop is Some {
                                        st1
                                    } else {
                                        pointer_key_run(c, n, a, i, b, st1)
                                    }
                                },
                            },
                            Some(_) => halt(st, Refusal::Unreadable),
                        }
                    },
                }
            }
        },
    }
}

/// The entity that the `i`-th relation points to is stored: its key is taken.
pub open spec fn pointer_key_run(c: Ctx, n: usize, a: EntityId, i: int, b: EntityId, st: Big) -> Big
    decreases c.plan.len() - n, 5int, c.plan[n as int].withs.len() - i, 0int, 0int,
    when 0 <= i < c.plan[n as int].withs.len()
{
    match meta_at(c, st.s, n, a) {
        None => halt(st, Refusal::Unreadable),
        Some(m) => {
            let p = c.plan[n as int];
            if !p.copy_keys {
                pointers_run(c, n, a, i + 1, tick(st))
            } else {
                match m.field(p.withs[i].0) {
                    None => halt(st, Refusal::Unreadable),
                    Some(f) => if !f.is_relation() {
                        halt(st, Refusal::Unreadable)
                    } else {
                        let s2 = if b < st.s.len() && st.s[b as int].get(f.refer_right()) is Some {
                            store_set(st.s, a as int, f.refer_left(), st.s[b as int].get(f.refer_right())->Some_0)
                        } else {
                            st.s
                        };
                        pointers_run(c, n, a, i + 1, tick(Big { s: s2, ..st }))
                    },
                }
            }
        },
    }
}

/// Storing `a` itself: its `INSERT` is handed out and the answer taken.
pub open spec fn store_run(c: Ctx, n: usize, a: EntityId, st: Big) -> Big
    decreases c.plan.len() - n, 4int, 0int, 0int, 0int,
{
    match meta_at(c, st.s, n, a) {
        None => halt(st, Refusal::Unreadable),
        Some(m) => {
            let p = c.plan[n as int];
            if !p.store_self {
                halt(st, Refusal::NotInsert)
            } else if !self_insert_ok(m, st.s[a as int]) {
                halt(st, Refusal::Unreadable)
            } else {
                let st1 = Big { out: st.out.push(self_insert(m, st.s[a as int])), steps: st.steps + 1, ..st };
                let (affected, last_id) = reply(c, st1.k);
                let s2 = if id_known(m) && m.id_auto() {
                    store_set(st1.s, a as int, "id"@, FieldValueView::Value(Value::UInt(last_id)))
                } else {
                    st1.s
                };
                let st2 = Big { s: s2, k: st1.k + 1, steps: st1.steps + 1, ..st1 };
                if st1.total + affected > u64::MAX {
                    Big { stop: Some(Refusal::Overflow), ..st2 }
                } else {
                    one_ones_run(c, n, a, 0, Big { total: (st1.total + affected) as u64, ..st2 })
                }
            }
        },
    }
}

/// Following the one-to-one relations of `a`, from the `i`-th relation on.
pub open spec fn one_ones_run(c: Ctx, n: usize, a: EntityId, i: int, st: Big) -> Big
    decreases c.plan.len() - n, 3int, c.plan[n as int].withs.len() - i, 0int, 0int,
{
    match meta_at(c, st.s, n, a) {
        None => halt(st, Refusal::Unreadable),
        Some(m) => {
            let p = c.plan[n as int];
            if i >= p.withs.len() {
                one_manys_run(c, n, a, 0, tick(st))
            } else {
                let field = p.withs[i].0;
                match m.field(field) {
                    None => halt(st, Refusal::Unreadable),
                    Some(f) => if !f.is_kind(ReferKind::OneToOne) {
                        one_ones_run(c, n, a, i + 1, tick(st))
                    } else {
                        match st.s[a as int].get(field) {
                            None => one_ones_run(c, n, a, i + 1, tick(st)),
                            Some(FieldValueView::Entity(None)) => one_ones_run(c, n, a, i + 1, tick(st)),
                            Some(FieldValueView::Entity(Some(b))) => match forward_child(c, n, i, b) {
                                None => halt(st, Refusal::Unreadable),
                                Some(ch) => {
                                    let s2 = if p.copy_keys && b < st.s.len() && st.s[a as int].get(f.refer_left()) is Some {
                                        store_set(st.s, b as int, f.refer_right(), st.s[a as int].get(f.refer_left())->Some_0)
                                    } else {
                                        st.s
                                    };
                                    let st1 = entity_run(c, ch, b, tick(Big { s: s2, ..st }));
                                    if st1.stop is Some {
                                        st1
                                    } else {
                                        one_ones_run(c, n, a, i + 1, st1)
                                    }
                                },
                            },
                            Some(_) => halt(st, Refusal::Unreadable),
                        }
                    },
                }
            }
        },
    }
}

/// Following the one-to-many relations of `a`, from the `i`-th relation on;
/// past the last, the entity is done.
pub open spec fn one_manys_run(c: Ctx, n: usize, a: EntityId, i: int, st: Big) -> Big
    decreases c.plan.len() - n, 2int, c.plan[n as int].withs.len() - i, 1int, 0int,
{
    match meta_at(c, st.s, n, a) {
        None => halt(st, Refusal::Unreadable),
        Some(m) => {
            let p = c.plan[n as int];
            if i >= p.withs.len() {
                tick(st)
            } else {
                let field = p.withs[i].0;
                match m.field(field) {
                    None => halt(st, Refusal::Unreadable),
                    Some(f) => if !f.is_kind(ReferKind::OneToMany) {
                        one_manys_run(c, n, a, i + 1, tick(st))
                    } else {
                        match st.s[a as int].get(field) {
                            None => one_manys_run(c, n, a, i + 1, tick(st)),
                            Some(FieldValueView::Vec(items)) => if !all_below(items, st.s.len() as int) {
                                halt(st, Refusal::Unreadable)
                            } else {
                                let s2 = if p.copy_keys && st.s[a as int].get(f.refer_left()) is Some {
                                    set_all(st.s, items, f.refer_right(), st.s[a as int].get(f.refer_left())->Some_0)
                                } else {
                                    st.s
                                };
                                many_run(c, n, a, i, items, tick(Big { s: s2, ..st }))
                            },
                            Some(_) => halt(st, Refusal::Unreadable),
                        }
                    },
                }
            }
        },
    }
}

/// Storing the entities of the `i`-th relation, of those in `rest`.
pub open spec fn many_run(c: Ctx, n: usize, a: EntityId, i: int, rest: Seq<EntityId>, st: Big) -> Big
    decreases c.plan.len() - n, 2int, c.plan[n as int].withs.len() - i, 0int, rest.len(),
    when 0 <= i < c.plan[n as int].withs.len()
{
    match meta_at(c, st.s, n, a) {
        None => halt(st, Refusal::Unreadable),
        Some(m) => {
            if rest.len() == 0 {
                one_manys_run(c, n, a, i + 1, tick(st))
            } else {
                let b = rest[0];
                match forward_child(c, n, i, b) {
                    None => halt(st, Refusal::Unreadable),
                    Some(ch) => {
                        let st1 = entity_run(c, ch, b, tick(st));
                        if st1.stop is Some {
                            st1
                        } else {
                            many_run(c, n, a, i, rest.drop_first(), st1)
                        }
                    },
                }
            }
        },
    }
}

// ---------------------------------------------------------------------------
// The step-by-step run, with the database answering from the list.

/// A run with what it has handed out, the answers it has used, and how it ended.
pub struct Mach {
    pub r: RunnerView,
    pub s: Seq<EntityInnerView>,
    pub k: nat,
    pub out: Seq<StatementView>,
    pub done: Option<u64>,
    pub stop: Option<Refusal>,
}

/// One step: the awaited answer is reported, or the run steps.
pub open spec fn mstep(c: Ctx, m: Mach) -> Mach {
    if m.r.awaiting() {
        let (affected, last_id) = reply(c, m.k);
        let o = report_spec(m.r, c.orm, m.s, affected, last_id);
        Mach {
            r: o.runner,
            s: o.store,
            k: m.k + 1,
            out: m.out,
            done: None,
            stop: match o.action {
                ActionView::Abort(w) => Some(w),
                _ => None,
            },
        }
    } else {
        let o = step_spec(m.r, c.orm, m.s);
        Mach {
            r: o.runner,
            s: o.store,
            k: m.k,
            out: match o.action {
                ActionView::Exec(st) => m.out.push(st),
                _ => m.out,
            },
            done: match o.action {
                ActionView::Done(t) => Some(t),
                _ => None,
            },
            stop: match o.action {
                ActionView::Abort(w) => Some(w),
                _ => None,
            },
        }
    }
}

pub open spec fn halted(m: Mach) -> bool {
    m.done is Some || m.stop is Some
}

/// `n` steps of the run, or fewer where it ends before.
pub open spec fn run(c: Ctx, m: Mach, n: nat) -> Mach
    decreases n,
{
    if n == 0 || halted(m) {
        m
    } else {
        run(c, mstep(c, m), (n - 1) as nat)
    }
}

pub proof fn lemma_run_add(c: Ctx, m: Mach, x: nat, y: nat)
    ensures
        run(c, m, x + y) == run(c, run(c, m, x), y),
    decreases x,
{
    if x > 0 && !halted(m) {
        lemma_run_add(c, mstep(c, m), (x - 1) as nat, y);
        assert((x + y - 1) as nat == ((x - 1) as nat + y) as nat);
    } else if halted(m) {
        lemma_run_halted(c, m, x + y);
        lemma_run_halted(c, m, x);
        lemma_run_halted(c, m, y);
    }
}

pub proof fn lemma_run_halted(c: Ctx, m: Mach, x: nat)
    requires
        halted(m),
    ensures
        run(c, m, x) == m,
{
}

pub proof fn lemma_run_one(c: Ctx, m: Mach)
    requires
        !halted(m),
    ensures
        run(c, m, 1) == mstep(c, m),
{
    reveal_with_fuel(run, 2);
}

/// The run standing at the entity `a` of node `n`, in the phase `ph`, above `S`.
pub open spec fn at(c: Ctx, S: Seq<FrameView>, n: usize, a: EntityId, ph: PhaseView, st: Big) -> Mach {
    Mach {
        r: RunnerView { plan: c.plan, stack: S.push(FrameView { node: n, entity: a, phase: ph }), total: st.total },
        s: st.s,
        k: st.k,
        out: st.out,
        done: None,
        stop: None,
    }
}

/// The run once the entity on top of `S` is done.
pub open spec fn after(c: Ctx, S: Seq<FrameView>, b: Big) -> Mach {
    Mach {
        r: RunnerView { plan: c.plan, stack: S, total: b.total },
        s: b.s,
        k: b.k,
        out: b.out,
        done: if S.len() == 0 {
            Some(b.total)
        } else {
            None
        },
        stop: None,
    }
}

/// Running from `m0` for as many steps as the reading `b` took from `st`
/// ends as `b` says: with the entity done above `S`, or stopped for its reason.
pub open spec fn matches_run(c: Ctx, m0: Mach, S: Seq<FrameView>, st: Big, b: Big) -> bool {
    &&& b.steps >= st.steps
    &&& b.stop is None ==> run(c, m0, (b.steps - st.steps) as nat) == after(c, S, b)
    &&& b.stop matches Some(w) ==> run(c, m0, (b.steps - st.steps) as nat).stop == Some(w) && run(
        c,
        m0,
        (b.steps - st.steps) as nat,
    ).out == b.out
}

/// A run whose plan links each node only to later nodes, with indices that
/// fit in a machine word.
pub open spec fn good(c: Ctx) -> bool {
    &&& forall|n: int| 0 <= n < c.plan.len() ==> (#[trigger] c.plan[n]).withs.len() <= usize::MAX
    &&& forall|n: int, i: int, b: EntityId|
        0 <= n < c.plan.len() && 0 <= i < c.plan[n].withs.len() ==> n < #[trigger] child_node(c.plan[n], i, b)
            < c.plan.len()
}

proof fn lemma_chain(c: Ctx, m0: Mach, S: Seq<FrameView>, st: Big, mid: Mach, st_mid: Big, b: Big)
    requires
        st_mid.steps >= st.steps,
        st_mid.stop is None,
        run(c, m0, (st_mid.steps - st.steps) as nat) == mid,
        matches_run(c, mid, S, st_mid, b),
    ensures
        matches_run(c, m0, S, st, b),
{
    lemma_run_add(c, m0, (st_mid.steps - st.steps) as nat, (b.steps - st_mid.steps) as nat);
    assert((b.steps - st.steps) as nat == ((st_mid.steps - st.steps) as nat + (b.steps - st_mid.steps) as nat) as nat);
}

/// One step to `m1`, then as `b` says from there.
proof fn lemma_step_then(c: Ctx, m0: Mach, S: Seq<FrameView>, st: Big, m1: Mach, b: Big)
    requires
        !halted(m0),
        st.stop is None,
        mstep(c, m0) == m1,
        matches_run(c, m1, S, tick(st), b),
    ensures
        matches_run(c, m0, S, st, b),
{
    lemma_run_one(c, m0);
    lemma_chain(c, m0, S, st, m1, tick(st), b);
}

/// One step that stops the run.
proof fn lemma_step_halts(c: Ctx, m0: Mach, S: Seq<FrameView>, st: Big, why: Refusal)
    requires
        !halted(m0),
        mstep(c, m0).stop == Some(why),
        mstep(c, m0).out == st.out,
    ensures
        matches_run(c, m0, S, st, halt(st, why)),
{
    lemma_run_one(c, m0);
}

proof fn lemma_push_update(S: Seq<FrameView>, x: FrameView, y: FrameView)
    ensures
        S.push(x).update(S.len() as int, y) == S.push(y),
        S.push(x).last() == x,
        S.push(x).drop_last() == S,
{
    assert(S.push(x).update(S.len() as int, y) =~= S.push(y));
    assert(S.push(x).drop_last() =~= S);
}

/// The run standing at an entity: its innermost frame, and where each move
/// of that frame leads.
proof fn lemma_at(c: Ctx, S: Seq<FrameView>, n: usize, a: EntityId, ph: PhaseView, st: Big)
    ensures
        ({
            let m = at(c, S, n, a, ph, st);
            &&& m.r.stack.len() > 0
            &&& m.r.stack.last() == (FrameView { node: n, entity: a, phase: ph })
            &&& !halted(m)
            &&& m.r.awaiting() <==> ph is Stored
            &&& forall|ph2: PhaseView| #[trigger] m.r.with_phase(ph2) == at(c, S, n, a, ph2, st).r
            &&& forall|ph2: PhaseView, ch: usize, b: EntityId| #[trigger] m.r.with_child(ph2, ch, b)
                == at(c, S.push(FrameView { node: n, entity: a, phase: ph2 }), ch, b, PhaseView::Start, st).r
            &&& RunnerView { stack: m.r.stack.drop_last(), ..m.r } == after(c, S, st).r
        }),
{
    let m = at(c, S, n, a, ph, st);
    let f = FrameView { node: n, entity: a, phase: ph };
    lemma_push_update(S, f, f);
    assert forall|ph2: PhaseView| #[trigger] m.r.with_phase(ph2) == at(c, S, n, a, ph2, st).r by {
        lemma_push_update(S, f, FrameView { node: n, entity: a, phase: ph2 });
    }
    assert forall|ph2: PhaseView, ch: usize, b: EntityId| #[trigger] m.r.with_child(ph2, ch, b) == at(
        c,
        S.push(FrameView { node: n, entity: a, phase: ph2 }),
        ch,
        b,
        PhaseView::Start,
        st,
    ).r by {
        lemma_push_update(S, f, FrameView { node: n, entity: a, phase: ph2 });
    }
}

/// One step starts a child entity whose reading is `st1`: either the child
/// stops the run, or the run stands where the child leaves it.
proof fn lemma_via_child(c: Ctx, m0: Mach, S: Seq<FrameView>, st: Big, S1: Seq<FrameView>, st1: Big)
    requires
        !halted(m0),
        st.stop is None,
        matches_run(c, mstep(c, m0), S1, tick(st), st1),
    ensures
        st1.steps >= st.steps + 1,
        st1.stop is None ==> run(c, m0, (st1.steps - st.steps) as nat) == after(c, S1, st1),
        st1.stop is Some ==> matches_run(c, m0, S, st, st1),
{
    lemma_run_one(c, m0);
    lemma_run_add(c, m0, 1, (st1.steps - st.steps - 1) as nat);
    assert((st1.steps - st.steps) as nat == (1 + (st1.steps - st.steps - 1) as nat) as nat);
}

/// Storing an entity, read recursively, is what the run does from its start.
pub proof fn lemma_entity(c: Ctx, S: Seq<FrameView>, n: usize, a: EntityId, st: Big)
    requires
        good(c),
        st.stop is None,
    ensures
        matches_run(c, at(c, S, n, a, PhaseView::Start, st), S, st, entity_run(c, n, a, st)),
    decreases c.plan.len() - n, 6int, 0int, 0int, 0int,
{
    let m0 = at(c, S, n, a, PhaseView::Start, st);
    lemma_at(c, S, n, a, PhaseView::Start, st);
    match meta_at(c, st.s, n, a) {
        None => {
            lemma_step_halts(c, m0, S, st, Refusal::Unreadable);
        },
        Some(m) => match start_refusal(c.plan[n as int].check_id, m, st.s[a as int]) {
            Some(why) => {
                lemma_step_halts(c, m0, S, st, why);
            },
            None => {
                let m1 = at(c, S, n, a, PhaseView::Pointer(0), tick(st));
                assert(mstep(c, m0) == m1);
                lemma_pointers(c, S, n, a, 0, tick(st));
                lemma_step_then(c, m0, S, st, m1, entity_run(c, n, a, st));
            },
        },
    }
}

/// Following pointers, read recursively, is what the run does from there.
pub proof fn lemma_pointers(c: Ctx, S: Seq<FrameView>, n: usize, a: EntityId, i: int, st: Big)
    requires
        good(c),
        st.stop is None,
        0 <= i,
        n < c.plan.len() ==> i <= c.plan[n as int].withs.len(),
    ensures
        matches_run(c, at(c, S, n, a, PhaseView::Pointer(i as usize), st), S, st, pointers_run(c, n, a, i, st)),
    decreases c.plan.len() - n, 5int, c.plan[n as int].withs.len() - i, 1int, 0int,
{
    let m0 = at(c, S, n, a, PhaseView::Pointer(i as usize), st);
    lemma_at(c, S, n, a, PhaseView::Pointer(i as usize), st);
    let b = pointers_run(c, n, a, i, st);
    match meta_at(c, st.s, n, a) {
        None => {
            lemma_step_halts(c, m0, S, st, Refusal::Unreadable);
        },
        Some(m) => {
            let p = c.plan[n as int];
            assert(p.withs.len() <= usize::MAX);
            if i >= p.withs.len() {
                let m1 = at(c, S, n, a, PhaseView::Store, tick(st));
                assert(mstep(c, m0) == m1);
                lemma_store(c, S, n, a, tick(st));
                lemma_step_then(c, m0, S, st, m1, b);
            } else {
                let field = p.withs[i].0;
                let m1 = at(c, S, n, a, PhaseView::Pointer((i + 1) as usize), tick(st));
                match m.field(field) {
                    None => {
                        lemma_step_halts(c, m0, S, st, Refusal::Unreadable);
                    },
                    Some(f) => if !f.is_kind(ReferKind::Pointer) {
                        assert(mstep(c, m0) == m1);
                        lemma_pointers(c, S, n, a, i + 1, tick(st));
                        lemma_step_then(c, m0, S, st, m1, b);
                    } else {
                        match st.s[a as int].get(field) {
                            None => {
                                assert(mstep(c, m0) == m1);
                                lemma_pointers(c, S, n, a, i + 1, tick(st));
                                lemma_step_then(c, m0, S, st, m1, b);
                            },
                            Some(FieldValueView::Entity(None)) => {
                                assert(mstep(c, m0) == m1);
                                lemma_pointers(c, S, n, a, i + 1, tick(st));
                                lemma_step_then(c, m0, S, st, m1, b);
                            },
                            Some(FieldValueView::Entity(Some(e))) => {
                                let ch = child_node(p, i, e);
                                assert(n < ch < c.plan.len());
                                let ph2 = PhaseView::PointerDone(i as usize, e);
                                let S1 = S.push(FrameView { node: n, entity: a, phase: ph2 });
                                assert(mstep(c, m0) == at(c, S1, ch, e, PhaseView::Start, tick(st)));
                                lemma_entity(c, S1, ch, e, tick(st));
                                let st1 = entity_run(c, ch, e, tick(st));
                                lemma_via_child(c, m0, S, st, S1, st1);
                                if st1.stop is None {
                                    assert(after(c, S1, st1) == at(c, S, n, a, ph2, st1));
                                    lemma_pointer_key(c, S, n, a, i, e, st1);
                                    lemma_chain(c, m0, S, st, at(c, S, n, a, ph2, st1), st1, b);
                                }
                            },
                            Some(_) => {
                                lemma_step_halts(c, m0, S, st, Refusal::Unreadable);
                            },
                        }
                    },
                }
            }
        },
    }
}

/// Taking the key of the entity a pointer holds, read recursively, is what
/// the run does from there.
pub proof fn lemma_pointer_key(c: Ctx, S: Seq<FrameView>, n: usize, a: EntityId, i: int, e: EntityId, st: Big)
    requires
        good(c),
        st.stop is None,
        n < c.plan.len(),
        0 <= i < c.plan[n as int].withs.len(),
    ensures
        matches_run(
            c,
            at(c, S, n, a, PhaseView::PointerDone(i as usize, e), st),
            S,
            st,
            pointer_key_run(c, n, a, i, e, st),
        ),
    decreases c.plan.len() - n, 5int, c.plan[n as int].withs.len() - i, 0int, 0int,
{
    let m0 = at(c, S, n, a, PhaseView::PointerDone(i as usize, e), st);
    lemma_at(c, S, n, a, PhaseView::PointerDone(i as usize, e), st);
    let b = pointer_key_run(c, n, a, i, e, st);
    match meta_at(c, st.s, n, a) {
        None => {
            lemma_step_halts(c, m0, S, st, Refusal::Unreadable);
        },
        Some(m) => {
            let p = c.plan[n as int];
            assert(p.withs.len() <= usize::MAX);
            if !p.copy_keys {
                let m1 = at(c, S, n, a, PhaseView::Pointer((i + 1) as usize), tick(st));
                assert(mstep(c, m0) == m1);
                lemma_pointers(c, S, n, a, i + 1, tick(st));
                lemma_step_then(c, m0, S, st, m1, b);
            } else {
                match m.field(p.withs[i].0) {
                    None => {
                        lemma_step_halts(c, m0, S, st, Refusal::Unreadable);
                    },
                    Some(f) => if !f.is_relation() {
                        lemma_step_halts(c, m0, S, st, Refusal::Unreadable);
                    } else {
                        let s2 = if e < st.s.len() && st.s[e as int].get(f.refer_right()) is Some {
                            store_set(st.s, a as int, f.refer_left(), st.s[e as int].get(f.refer_right())->Some_0)
                        } else {
                            st.s
                        };
                        let st2 = tick(Big { s: s2, ..st });
                        let m1 = at(c, S, n, a, PhaseView::Pointer((i + 1) as usize), st2);
                        assert(mstep(c, m0) == m1);
                        lemma_pointers(c, S, n, a, i + 1, st2);
                        lemma_step_then(c, m0, S, st, m1, b);
                    },
                }
            }
        },
    }
}

/// Two steps that both go on.
proof fn lemma_run_two(c: Ctx, m0: Mach)
    requires
        !halted(m0),
        !halted(mstep(c, m0)),
    ensures
        run(c, m0, 2) == mstep(c, mstep(c, m0)),
{
    reveal_with_fuel(run, 3);
}

/// Storing the entity itself, read recursively, is what the run does from there.
pub proof fn lemma_store(c: Ctx, S: Seq<FrameView>, n: usize, a: EntityId, st: Big)
    requires
        good(c),
        st.stop is None,
    ensures
        matches_run(c, at(c, S, n, a, PhaseView::Store, st), S, st, store_run(c, n, a, st)),
    decreases c.plan.len() - n, 4int, 0int, 0int, 0int,
{
    let m0 = at(c, S, n, a, PhaseView::Store, st);
    lemma_at(c, S, n, a, PhaseView::Store, st);
    let b = store_run(c, n, a, st);
    match meta_at(c, st.s, n, a) {
        None => {
            lemma_step_halts(c, m0, S, st, Refusal::Unreadable);
        },
        Some(m) => {
            let p = c.plan[n as int];
            if !p.store_self {
                lemma_step_halts(c, m0, S, st, Refusal::NotInsert);
            } else if !self_insert_ok(m, st.s[a as int]) {
                lemma_step_halts(c, m0, S, st, Refusal::Unreadable);
            } else {
                let st1 = Big { out: st.out.push(self_insert(m, st.s[a as int])), steps: st.steps + 1, ..st };
                let m1 = at(c, S, n, a, PhaseView::Stored, st1);
                assert(mstep(c, m0) == m1);
                lemma_at(c, S, n, a, PhaseView::Stored, st1);
                let (affected, last_id) = reply(c, st1.k);
                let s2 = if id_known(m) && m.id_auto() {
                    store_set(st1.s, a as int, "id"@, FieldValueView::Value(Value::UInt(last_id)))
                } else {
                    st1.s
                };
                let st2 = Big { s: s2, k: st1.k + 1, steps: st1.steps + 1, ..st1 };
                if st1.total + affected > u64::MAX {
                    assert(mstep(c, m1).stop == Some(Refusal::Overflow));
                    lemma_run_one(c, m0);
                    lemma_run_add(c, m0, 1, 1);
                    lemma_run_one(c, m1);
                } else {
                    let st3 = Big { total: (st1.total + affected) as u64, ..st2 };
                    let m2 = at(c, S, n, a, PhaseView::OneToOne(0), st3);
                    assert(mstep(c, m1) == m2);
                    lemma_run_two(c, m0);
                    lemma_one_ones(c, S, n, a, 0, st3);
                    lemma_chain(c, m0, S, st, m2, st3, b);
                }
            }
        },
    }
}

/// Following one-to-one relations, read recursively, is what the run does
/// from there.
pub proof fn lemma_one_ones(c: Ctx, S: Seq<FrameView>, n: usize, a: EntityId, i: int, st: Big)
    requires
        good(c),
        st.stop is None,
        0 <= i,
        n < c.plan.len() ==> i <= c.plan[n as int].withs.len(),
    ensures
        matches_run(c, at(c, S, n, a, PhaseView::OneToOne(i as usize), st), S, st, one_ones_run(c, n, a, i, st)),
    decreases c.plan.len() - n, 3int, c.plan[n as int].withs.len() - i, 0int, 0int,
{
    let m0 = at(c, S, n, a, PhaseView::OneToOne(i as usize), st);
    lemma_at(c, S, n, a, PhaseView::OneToOne(i as usize), st);
    let b = one_ones_run(c, n, a, i, st);
    match meta_at(c, st.s, n, a) {
        None => {
            lemma_step_halts(c, m0, S, st, Refusal::Unreadable);
        },
        Some(m) => {
            let p = c.plan[n as int];
            assert(p.withs.len() <= usize::MAX);
            if i >= p.withs.len() {
                let m1 = at(c, S, n, a, PhaseView::OneToMany(0), tick(st));
                assert(mstep(c, m0) == m1);
                lemma_one_manys(c, S, n, a, 0, tick(st));
                lemma_step_then(c, m0, S, st, m1, b);
            } else {
                let field = p.withs[i].0;
                let m1 = at(c, S, n, a, PhaseView::OneToOne((i + 1) as usize), tick(st));
                match m.field(field) {
                    None => {
                        lemma_step_halts(c, m0, S, st, Refusal::Unreadable);
                    },
                    Some(f) => if !f.is_kind(ReferKind::OneToOne) {
                        assert(mstep(c, m0) == m1);
                        lemma_one_ones(c, S, n, a, i + 1, tick(st));
                        lemma_step_then(c, m0, S, st, m1, b);
                    } else {
                        match st.s[a as int].get(field) {
                            None => {
                                assert(mstep(c, m0) == m1);
                                lemma_one_ones(c, S, n, a, i + 1, tick(st));
                                lemma_step_then(c, m0, S, st, m1, b);
                            },
                            Some(FieldValueView::Entity(None)) => {
                                assert(mstep(c, m0) == m1);
                                lemma_one_ones(c, S, n, a, i + 1, tick(st));
                                lemma_step_then(c, m0, S, st, m1, b);
                            },
                            Some(FieldValueView::Entity(Some(e))) => {
                                let ch = child_node(p, i, e);
                                assert(n < ch < c.plan.len());
                                let s2 = if p.copy_keys && e < st.s.len() && st.s[a as int].get(f.refer_left()) is Some {
                                    store_set(st.s, e as int, f.refer_right(), st.s[a as int].get(f.refer_left())->Some_0)
                                } else {
                                    st.s
                                };
                                let st0 = Big { s: s2, ..st };
                                let ph2 = PhaseView::OneToOne((i + 1) as usize);
                                let S1 = S.push(FrameView { node: n, entity: a, phase: ph2 });
                                assert(mstep(c, m0) == at(c, S1, ch, e, PhaseView::Start, tick(st0)));
                                lemma_entity(c, S1, ch, e, tick(st0));
                                let st1 = entity_run(c, ch, e, tick(st0));
                                lemma_via_child(c, m0, S, st, S1, st1);
                                if st1.stop is None {
                                    assert(after(c, S1, st1) == at(c, S, n, a, ph2, st1));
                                    lemma_one_ones(c, S, n, a, i + 1, st1);
                                    lemma_chain(c, m0, S, st, at(c, S, n, a, ph2, st1), st1, b);
                                }
                            },
                            Some(_) => {
                                lemma_step_halts(c, m0, S, st, Refusal::Unreadable);
                            },
                        }
                    },
                }
            }
        },
    }
}

/// Following one-to-many relations, read recursively, is what the run does
/// from there.
pub proof fn lemma_one_manys(c: Ctx, S: Seq<FrameView>, n: usize, a: EntityId, i: int, st: Big)
    requires
        good(c),
        st.stop is None,
        0 <= i,
        n < c.plan.len() ==> i <= c.plan[n as int].withs.len(),
    ensures
        matches_run(c, at(c, S, n, a, PhaseView::OneToMany(i as usize), st), S, st, one_manys_run(c, n, a, i, st)),
    decreases c.plan.len() - n, 2int, c.plan[n as int].withs.len() - i, 1int, 0int,
{
    let m0 = at(c, S, n, a, PhaseView::OneToMany(i as usize), st);
    lemma_at(c, S, n, a, PhaseView::OneToMany(i as usize), st);
    let b = one_manys_run(c, n, a, i, st);
    match meta_at(c, st.s, n, a) {
        None => {
            lemma_step_halts(c, m0, S, st, Refusal::Unreadable);
        },
        Some(m) => {
            let p = c.plan[n as int];
            assert(p.withs.len() <= usize::MAX);
            if i >= p.withs.len() {
                assert(mstep(c, m0) == after(c, S, tick(st)));
                lemma_run_one(c, m0);
            } else {
                let field = p.withs[i].0;
                let m1 = at(c, S, n, a, PhaseView::OneToMany((i + 1) as usize), tick(st));
                match m.field(field) {
                    None => {
                        lemma_step_halts(c, m0, S, st, Refusal::Unreadable);
                    },
                    Some(f) => if !f.is_kind(ReferKind::OneToMany) {
                        assert(mstep(c, m0) == m1);
                        lemma_one_manys(c, S, n, a, i + 1, tick(st));
                        lemma_step_then(c, m0, S, st, m1, b);
                    } else {
                        match st.s[a as int].get(field) {
                            None => {
                                assert(mstep(c, m0) == m1);
                                lemma_one_manys(c, S, n, a, i + 1, tick(st));
                                lemma_step_then(c, m0, S, st, m1, b);
                            },
                            Some(FieldValueView::Vec(items)) => if !all_below(items, st.s.len() as int) {
                                lemma_step_halts(c, m0, S, st, Refusal::Unreadable);
                            } else {
                                let s2 = if p.copy_keys && st.s[a as int].get(f.refer_left()) is Some {
                                    set_all(st.s, items, f.refer_right(), st.s[a as int].get(f.refer_left())->Some_0)
                                } else {
                                    st.s
                                };
                                let st2 = tick(Big { s: s2, ..st });
                                let m2 = at(c, S, n, a, PhaseView::Many(i as usize, items), st2);
                                assert(mstep(c, m0) == m2);
                                lemma_many(c, S, n, a, i, items, st2);
                                lemma_step_then(c, m0, S, st, m2, b);
                            },
                            Some(_) => {
                                lemma_step_halts(c, m0, S, st, Refusal::Unreadable);
                            },
                        }
                    },
                }
            }
        },
    }
}

/// Storing the entities of a one-to-many relation, read recursively, is what
/// the run does from there.
pub proof fn lemma_many(c: Ctx, S: Seq<FrameView>, n: usize, a: EntityId, i: int, rest: Seq<EntityId>, st: Big)
    requires
        good(c),
        st.stop is None,
        n < c.plan.len(),
        0 <= i < c.plan[n as int].withs.len(),
    ensures
        matches_run(c, at(c, S, n, a, PhaseView::Many(i as usize, rest), st), S, st, many_run(c, n, a, i, rest, st)),
    decreases c.plan.len() - n, 2int, c.plan[n as int].withs.len() - i, 0int, rest.len(),
{
    let m0 = at(c, S, n, a, PhaseView::Many(i as usize, rest), st);
    lemma_at(c, S, n, a, PhaseView::Many(i as usize, rest), st);
    let b = many_run(c, n, a, i, rest, st);
    match meta_at(c, st.s, n, a) {
        None => {
            lemma_step_halts(c, m0, S, st, Refusal::Unreadable);
        },
        Some(m) => {
            let p = c.plan[n as int];
            assert(p.withs.len() <= usize::MAX);
            if rest.len() == 0 {
                let m1 = at(c, S, n, a, PhaseView::OneToMany((i + 1) as usize), tick(st));
                assert(mstep(c, m0) == m1);
                lemma_one_manys(c, S, n, a, i + 1, tick(st));
                lemma_step_then(c, m0, S, st, m1, b);
            } else {
                let e = rest[0];
                let ch = child_node(p, i, e);
                assert(n < ch < c.plan.len());
                let ph2 = PhaseView::Many(i as usize, rest.drop_first());
                let S1 = S.push(FrameView { node: n, entity: a, phase: ph2 });
                assert(mstep(c, m0) == at(c, S1, ch, e, PhaseView::Start, tick(st)));
                lemma_entity(c, S1, ch, e, tick(st));
                let st1 = entity_run(c, ch, e, tick(st));
                lemma_via_child(c, m0, S, st, S1, st1);
                if st1.stop is None {
                    assert(after(c, S1, st1) == at(c, S, n, a, ph2, st1));
                    lemma_many(c, S, n, a, i, rest.drop_first(), st1);
                    lemma_chain(c, m0, S, st, at(c, S, n, a, ph2, st1), st1, b);
                }
            }
        },
    }
}

} // verus!
