//! Properties of the library that span several of its functions.
use vstd::prelude::*;

use crate::assoc::{entry_get, index_of, keys_of, lemma_index_of, lemma_index_of_first, map_get, map_put};
use crate::entity::{relation_of, set_entity_ok, set_entity_spec, store_set, EntityInnerView};
use crate::text::{decimal, digit_char, digit_value, digits_value, parse_u64_spec, u64_text_digits, all_digits};
use crate::rows::{first_by_key, id_of, key_of, keyed, keys_in, pick_inner_spec, pick_self_spec, pick_withs_spec, row_entity, Picked};
use crate::insert::{insert_links, insert_nodes, insert_plan, insert_subnodes, lemma_insert_decreases, Insert};
use crate::execute::{entity_links, entity_subnodes, execute_plan, field_links, field_subnodes, Execute};
use crate::meta::{select_fields, Cascade, EntityMetaView, FieldMetaView, FieldSel, OrmMetaView, ReferKind};
use crate::plan::{
    child_node, lookup_entity, all_below, id_known, one_one_step, pointer_done_step, report_spec, self_insert, self_insert_ok, set_all,
    start_refusal, step_spec, ActionView, Refusal, FrameView, PhaseView, PlanNodeView, RunnerView,
};
use crate::select::{cond_set, fresh, join_pushed, lemma_with_decreases, params_of, sql_of, width, with_pushed, SelectImpl};
use crate::placeholders::{holes, lemma_params_holes, lemma_sql_holes, names_ok, param_names};
use crate::visitor::{
    add_key, base_meta, complete, entity_meta_of, field_meta_of, fields_map, krate_meta, krate_ok, lemma_link_entity, links,
    decl_values, is_integer_type, kind_attr, relation_kind_of, struct_alias, StructField, StructItem,
};
use crate::insert::is_default_insert;
use crate::plan::{all_stored_fields, stored_fields};
use crate::select::{self_columns, with_table, JoinKind};
use crate::rows::column_label;
use crate::visitor::{
    auto_of, cascade_named, decl_value, fetch_of, len_of, nullable_of, struct_table, DEFAULT_LEN,
};
use crate::meta::Fetch;
use crate::entity::default_fields;
use crate::value::default_value;
use crate::plan::{self_insert_params, self_insert_sql};
use crate::visitor::decl_item;
use crate::cond::{cond_sql, join_cond_sql, ItemView, JoinItemView};
use crate::formatter::{field_template, TPL_IMPL_ENTITY, TPL_IMPL_VALUE, TPL_IMPL_VEC};
use crate::value::{EntityId, FieldValueView, Value};
use crate::trace::{after, at, entity_run, good, lemma_entity, run, Big, Ctx, Mach};

verus! {

// ---------------------------------------------------------------------------
// Name-keyed tables.

/// In a name-keyed table, a lookup after storing `v` under `k` finds `v`, and
/// a lookup of any other name finds what it found before.
pub proof fn law_table_read_after_write<V>(m: Seq<(Seq<char>, V)>, k: Seq<char>, v: V, other: Seq<char>)
    ensures
        map_get(map_put(m, k, v), k) == Some(v),
        other != k ==> map_get(map_put(m, k, v), other) == map_get(m, other),
{
    let keys = keys_of(m);
    let m2 = map_put(m, k, v);
    let keys2 = keys_of(m2);
    lemma_index_of(keys, k);
    lemma_index_of(keys, other);
    let i = index_of(keys, k);
    if i < 0 {
        assert(keys2 =~= keys.push(k));
        lemma_index_of_first(keys2, k, keys.len() as int);
        if other != k {
            lemma_index_of(keys2, other);
            let j = index_of(keys, other);
            if j >= 0 {
                lemma_index_of_first(keys2, other, j);
            } else {
                assert(forall|t: int| 0 <= t < keys2.len() ==> keys2[t] != other);
                crate::assoc::lemma_index_of_absent(keys2, other);
            }
        }
    } else {
        assert(keys2 =~= keys.update(i, k));
        lemma_index_of_first(keys2, k, i);
        if other != k {
            let j = index_of(keys, other);
            if j >= 0 {
                lemma_index_of_first(keys2, other, j);
            } else {
                assert(forall|t: int| 0 <= t < keys2.len() ==> keys2[t] != other);
                crate::assoc::lemma_index_of_absent(keys2, other);
            }
        }
    }
}

/// Reading a field of an entity gives what was last set in it; the other
/// fields keep their values.
pub proof fn law_field_read_after_write(e: EntityInnerView, name: Seq<char>, v: FieldValueView, other: Seq<char>)
    ensures
        e.set(name, v).get(name) == Some(v),
        other != name ==> e.set(name, v).get(other) == e.get(other),
        e.set(name, v).entity == e.entity,
{
    law_table_read_after_write(e.fields, name, v, other);
}

/// Setting a field of one entity of a store sets it there and touches no other
/// entity.
pub proof fn law_store_read_after_write(
    s: Seq<EntityInnerView>,
    id: int,
    name: Seq<char>,
    v: FieldValueView,
    other_id: int,
    other: Seq<char>,
)
    requires
        0 <= id < s.len(),
    ensures
        store_set(s, id, name, v).len() == s.len(),
        store_set(s, id, name, v)[id].get(name) == Some(v),
        other != name ==> store_set(s, id, name, v)[id].get(other) == s[id].get(other),
        0 <= other_id < s.len() && other_id != id ==> store_set(s, id, name, v)[other_id] == s[other_id],
{
    law_field_read_after_write(s[id], name, v, other);
}

// ---------------------------------------------------------------------------
// Numbers as text.

proof fn lemma_digit_round_trip(d: nat)
    requires
        d < 10,
    ensures
        digit_value(digit_char(d)) == Some(d),
{
}

proof fn lemma_decimal_digits(n: nat)
    ensures
        all_digits(decimal(n)),
        digits_value(decimal(n)) == n,
        decimal(n).len() > 0,
        decimal(n)[0] != '+',
    decreases n,
{
    if n < 10 {
        lemma_digit_round_trip(n);
        assert(decimal(n).drop_last() =~= Seq::<char>::empty());
        assert(digits_value(decimal(n).drop_last()) == 0);
        assert(decimal(n).last() == digit_char(n));
    } else {
        lemma_decimal_digits(n / 10);
        lemma_digit_round_trip(n % 10);
        let d = decimal(n);
        assert(d.drop_last() =~= decimal(n / 10));
        assert(d.last() == digit_char(n % 10));
        assert(digits_value(d) == digits_value(decimal(n / 10)) * 10 + (n % 10));
        assert((n / 10) * 10 + n % 10 == n);
        assert forall|i: int| 0 <= i < d.len() implies digit_value(#[trigger] d[i]) is Some by {
            if i < d.len() - 1 {
                assert(d[i] == decimal(n / 10)[i]);
            }
        }
    }
}

/// Reading back the decimal text of a number gives the number.
pub proof fn law_decimal_round_trip(n: u64)
    ensures
        parse_u64_spec(decimal(n as nat)) == Some(n),
{
    lemma_decimal_digits(n as nat);
    assert(u64_text_digits(decimal(n as nat)) == decimal(n as nat));
}

// ---------------------------------------------------------------------------
// Rows into entities.

/// Dropping repeats keeps, of the entities sharing a key, the first one only:
/// the keys that remain are distinct, every entity that remains was in the
/// list, and every key of the list remains.
pub proof fn law_first_by_key(s: Seq<EntityInnerView>, items: Seq<EntityId>)
    requires
        keyed(s, items),
    ensures
        ({
            let d = first_by_key(s, items);
            &&& forall|i: int, j: int| 0 <= i < j < d.len() ==> key_of(s, #[trigger] d[i]) != key_of(s, #[trigger] d[j])
            &&& forall|i: int| 0 <= i < d.len() ==> items.contains(#[trigger] d[i])
            &&& forall|i: int| 0 <= i < items.len() ==> keys_in(s, d).contains(key_of(s, #[trigger] items[i]))
        }),
    decreases items.len(),
{
    if items.len() > 0 {
        let p = items.drop_last();
        assert(keyed(s, p)) by {
            assert forall|j: int| 0 <= j < p.len() implies #[trigger] p[j] < s.len() && id_of(s[p[j] as int]) is Some by {
                assert(p[j] == items[j]);
            }
        }
        law_first_by_key(s, p);
        let dp = first_by_key(s, p);
        let x = items.last();
        let d = first_by_key(s, items);
        if keys_in(s, p).contains(key_of(s, x)) {
            assert(d == dp);
            let t = choose|t: int| 0 <= t < keys_in(s, p).len() && keys_in(s, p)[t] == key_of(s, x);
            assert(keys_in(s, dp).contains(key_of(s, p[t])));
            assert forall|i: int| 0 <= i < items.len() implies keys_in(s, d).contains(key_of(s, #[trigger] items[i])) by {
                if i < p.len() {
                    assert(items[i] == p[i]);
                }
            }
            assert forall|i: int| 0 <= i < d.len() implies items.contains(#[trigger] d[i]) by {
                let u = choose|u: int| 0 <= u < p.len() && p[u] == d[i];
                assert(items[u] == d[i]);
            }
        } else {
            assert(d == dp.push(x));
            assert forall|i: int, j: int| 0 <= i < j < d.len() implies key_of(s, #[trigger] d[i]) != key_of(s, #[trigger] d[j]) by {
                if j == d.len() - 1 {
                    assert(keys_in(s, dp).contains(key_of(s, d[i]))) by {
                        assert(keys_in(s, dp)[i] == key_of(s, dp[i]));
                    }
                    if key_of(s, d[i]) == key_of(s, x) {
                        let u = choose|u: int| 0 <= u < p.len() && p[u] == dp[i];
                        assert(keys_in(s, p)[u] == key_of(s, x));
                    }
                }
            }
            assert forall|i: int| 0 <= i < d.len() implies items.contains(#[trigger] d[i]) by {
                if i < dp.len() {
                    let u = choose|u: int| 0 <= u < p.len() && p[u] == d[i];
                    assert(items[u] == d[i]);
                } else {
                    assert(items[items.len() - 1] == d[i]);
                }
            }
            assert forall|i: int| 0 <= i < items.len() implies keys_in(s, d).contains(key_of(s, #[trigger] items[i])) by {
                if i < p.len() {
                    assert(items[i] == p[i]);
                    let u = choose|u: int| 0 <= u < keys_in(s, dp).len() && keys_in(s, dp)[u] == key_of(s, p[i]);
                    assert(keys_in(s, d)[u] == keys_in(s, dp)[u]);
                } else {
                    assert(keys_in(s, d)[d.len() - 1] == key_of(s, x));
                }
            }
        }
    }
}

/// Picking the entity of a query twice from the same row gives the same entity
/// and changes nothing the second time.
pub proof fn law_pick_self_again(sel: SelectImpl, row: Seq<(String, Value)>, st: Picked)
    ensures
        ({
            let (x, st1) = pick_self_spec(sel, row, st);
            let (y, st2) = pick_self_spec(sel, row, st1);
            y == x && st2 == st1
        }),
{
    let e = row_entity(sel, row);
    match id_of(e) {
        None => {},
        Some(id) => {
            let key = sel.alias@ + "_"@ + decimal(id as nat);
            match map_get(st.map, key) {
                Some(_) => {},
                None => {
                    lemma_index_of(keys_of(st.map), key);
                    assert(map_put(st.map, key, st.store.len() as EntityId) == st.map.push((key, st.store.len() as EntityId)));
                    law_table_read_after_write(st.map, key, st.store.len() as EntityId, key);
                },
            }
        },
    }
}

// ---------------------------------------------------------------------------
// Runs of plans.

/// An insertion made with `Execute::insert` stores exactly its entity: the
/// run hands out one statement, the entity's `INSERT`; once the database
/// reports `affected` rows and the key `id`, the run ends with `affected`,
/// and the entity holds the key where its type's key is generated.
pub proof fn law_execute_insert(ex: Execute, orm: OrmMetaView, s: Seq<EntityInnerView>, a: EntityId, affected: u64, id: u64)
    requires
        ex.cascade == Cascade::Insert,
        ex.field_withs@.len() == 0,
        ex.entity_withs@.len() == 0,
        a < s.len(),
        orm.entity(s[a as int].entity) matches Some(m) && self_insert_ok(m, s[a as int]),
    ensures
        ({
            let m = orm.entity(s[a as int].entity)->Some_0;
            let r0 = RunnerView {
                plan: execute_plan(ex),
                stack: seq![FrameView { node: 0, entity: a, phase: PhaseView::Start }],
                total: 0,
            };
            let o1 = step_spec(r0, orm, s);
            let o2 = step_spec(o1.runner, orm, o1.store);
            let o3 = step_spec(o2.runner, orm, o2.store);
            let o4 = report_spec(o3.runner, orm, o3.store, affected, id);
            let o5 = step_spec(o4.runner, orm, o4.store);
            let o6 = step_spec(o5.runner, orm, o5.store);
            let stored = if m.id_auto() {
                store_set(s, a as int, "id"@, FieldValueView::Value(Value::UInt(id)))
            } else {
                s
            };
            &&& o1.action == ActionView::Continue
            &&& o2.action == ActionView::Continue
            &&& o3.action == ActionView::Exec(self_insert(m, s[a as int]))
            &&& o3.runner.awaiting()
            &&& o4.action == ActionView::Continue
            &&& o5.action == ActionView::Continue
            &&& o6.action == ActionView::Done(affected)
            &&& o6.runner.stack.len() == 0
            &&& o6.store == stored
        }),
{
    let m = orm.entity(s[a as int].entity)->Some_0;
    let p = execute_plan(ex);
    assert(field_links(ex, 0, 0) =~= Seq::<(Seq<char>, usize)>::empty());
    assert(entity_links(ex, 0, 0) =~= Seq::<(EntityId, usize)>::empty());
    assert(field_subnodes(ex, 0, 0) =~= Seq::<PlanNodeView>::empty());
    assert(entity_subnodes(ex, 0, 0) =~= Seq::<PlanNodeView>::empty());
    assert(p.len() == 1);
    assert(p[0].withs.len() == 0);
    assert(p[0].store_self);
    assert(!p[0].check_id);
}

/// An insertion with an `Insert` tree that follows no relation stores exactly
/// its entity, provided its key is generated by the database or has a value: the run
/// hands out the entity's `INSERT`, and once the database reports `affected`
/// rows and the key `id`, it ends with `affected`, the entity holding the key
/// where the key is generated.
pub proof fn law_insert_alone(ins: Insert, orm: OrmMetaView, s: Seq<EntityInnerView>, a: EntityId, affected: u64, id: u64)
    requires
        ins.withs@.len() == 0,
        a < s.len(),
        orm.entity(s[a as int].entity) matches Some(m) && self_insert_ok(m, s[a as int]) && start_refusal(
            true,
            m,
            s[a as int],
        ) is None,
    ensures
        ({
            let m = orm.entity(s[a as int].entity)->Some_0;
            let r0 = RunnerView {
                plan: insert_plan(ins),
                stack: seq![FrameView { node: 0, entity: a, phase: PhaseView::Start }],
                total: 0,
            };
            let o1 = step_spec(r0, orm, s);
            let o2 = step_spec(o1.runner, orm, o1.store);
            let o3 = step_spec(o2.runner, orm, o2.store);
            let o4 = report_spec(o3.runner, orm, o3.store, affected, id);
            let o5 = step_spec(o4.runner, orm, o4.store);
            let o6 = step_spec(o5.runner, orm, o5.store);
            let stored = if m.id_auto() {
                store_set(s, a as int, "id"@, FieldValueView::Value(Value::UInt(id)))
            } else {
                s
            };
            &&& o3.action == ActionView::Exec(self_insert(m, s[a as int]))
            &&& o6.action == ActionView::Done(affected)
            &&& o6.runner.stack.len() == 0
            &&& o6.store == stored
        }),
{
    assert(insert_links(ins, 0, 0) =~= Seq::<(Seq<char>, usize)>::empty());
    assert(insert_subnodes(ins, 0, 0) =~= Seq::<PlanNodeView>::empty());
    let p = insert_plan(ins);
    assert(p.len() == 1);
    assert(p[0].withs.len() == 0);
}

/// After the entity that a pointer holds is stored, its key is in the key
/// field of the entity holding the pointer.
pub proof fn law_pointer_key_copied(
    r: RunnerView,
    m: EntityMetaView,
    s: Seq<EntityInnerView>,
    p: PlanNodeView,
    a: EntityId,
    i: usize,
    b: EntityId,
)
    requires
        r.stack.len() > 0,
        a < s.len(),
        b < s.len(),
        i < p.withs.len(),
        p.copy_keys,
        m.field(p.withs[i as int].0) matches Some(f) && f.is_kind(ReferKind::Pointer),
        s[b as int].get(m.field(p.withs[i as int].0)->Some_0.refer_right()) is Some,
    ensures
        ({
            let f = m.field(p.withs[i as int].0)->Some_0;
            let o = pointer_done_step(r, m, s, p, a, i, b);
            &&& o.action == ActionView::Continue
            &&& o.store[a as int].get(f.refer_left()) == s[b as int].get(f.refer_right())
        }),
{
    let f = m.field(p.withs[i as int].0)->Some_0;
    law_store_read_after_write(s, a as int, f.refer_left(), s[b as int].get(f.refer_right())->Some_0, a as int, f.refer_left());
}

/// Before the entity that a one-to-one relation holds is stored, the key of
/// the entity holding the relation is put in its key field.
pub proof fn law_one_one_key_copied(
    r: RunnerView,
    m: EntityMetaView,
    s: Seq<EntityInnerView>,
    p: PlanNodeView,
    a: EntityId,
    i: usize,
    b: EntityId,
)
    requires
        r.stack.len() > 0,
        a < s.len(),
        b < s.len(),
        i < p.withs.len(),
        p.copy_keys,
        m.field(p.withs[i as int].0) matches Some(f) && f.is_kind(ReferKind::OneToOne),
        s[a as int].get(p.withs[i as int].0) == Some(FieldValueView::Entity(Some(b))),
        s[a as int].get(m.field(p.withs[i as int].0)->Some_0.refer_left()) is Some,
    ensures
        ({
            let f = m.field(p.withs[i as int].0)->Some_0;
            let o = one_one_step(r, m, s, p, a, i);
            &&& o.action == ActionView::Continue
            &&& o.store[b as int].get(f.refer_right()) == s[a as int].get(f.refer_left())
            &&& o.runner.stack.len() == r.stack.len() + 1
            &&& o.runner.stack.last().entity == b
        }),
{
    let f = m.field(p.withs[i as int].0)->Some_0;
    law_store_read_after_write(s, b as int, f.refer_right(), s[a as int].get(f.refer_left())->Some_0, b as int, f.refer_right());
}

/// Setting a field of every entity of a list sets it in each of them.
pub proof fn law_set_all(s: Seq<EntityInnerView>, items: Seq<EntityId>, name: Seq<char>, v: FieldValueView)
    requires
        all_below(items, s.len() as int),
    ensures
        set_all(s, items, name, v).len() == s.len(),
        forall|j: int| 0 <= j < items.len() ==> set_all(s, items, name, v)[#[trigger] items[j] as int].get(name) == Some(v),
    decreases items.len(),
{
    if items.len() > 0 {
        let p = items.drop_last();
        assert(all_below(p, s.len() as int)) by {
            assert forall|j: int| 0 <= j < p.len() implies #[trigger] p[j] < s.len() by {
                assert(p[j] == items[j]);
            }
        }
        law_set_all(s, p, name, v);
        let s1 = set_all(s, p, name, v);
        let x = items.last();
        assert forall|j: int| 0 <= j < items.len() implies set_all(s, items, name, v)[#[trigger] items[j] as int].get(name) == Some(v) by {
            law_store_read_after_write(s1, x as int, name, v, items[j] as int, name);
            if j < p.len() {
                assert(items[j] == p[j]);
            }
        }
    }
}

/// An entity whose type does not generate keys is refused by an `Insert` run
/// unless its key has a value: a key that is NULL or not set is refused.
pub proof fn law_key_refused(m: EntityMetaView, e: EntityInnerView)
    requires
        id_known(m),
        !m.id_auto(),
    ensures
        (start_refusal(true, m, e) is None) <==> (e.get("id"@) matches Some(FieldValueView::Value(v)) && !(v is NULL)),
        (start_refusal(true, m, e) == Some(Refusal::KeyNotGenerated)) <==> (e.get("id"@) is None || e.get("id"@)
            == Some(FieldValueView::Value(Value::NULL))),
{
}

// ---------------------------------------------------------------------------
// Relations set in memory.

/// Setting a one-to-one relation of `a` to `b` makes `a` hold `b`, gives `b`
/// `a`'s key in its key field, keeps `a`'s own key as it was, and clears the
/// key field of the entity `a` held before (where that is not `b`).
pub proof fn law_set_one_one(orm: OrmMetaView, s: Seq<EntityInnerView>, a: int, field: Seq<char>, b: EntityId)
    requires
        set_entity_ok(orm, s, a, field, Some(b)),
        relation_of(orm, s[a], field).is_kind(ReferKind::OneToOne),
        relation_of(orm, s[a], field).refer_left() != field,
    ensures
        ({
            let f = relation_of(orm, s[a], field);
            let s2 = set_entity_spec(orm, s, a, field, Some(b));
            let old_b = s[a].get(field)->Some_0->Entity_0;
            &&& s2.len() == s.len()
            &&& s2[a].get(field) == Some(FieldValueView::Entity(Some(b)))
            &&& s2[a].get(f.refer_left()) == s[a].get(f.refer_left())
            &&& s2[b as int].get(f.refer_right()) == Some(FieldValueView::Value(s[a].value_or_null(f.refer_left())))
            &&& old_b matches Some(ob) ==> (ob != b ==> s2[ob as int].get(f.refer_right()) == Some(
                FieldValueView::Value(Value::NULL),
            ))
        }),
{
    let f = relation_of(orm, s[a], field);
    let left = f.refer_left();
    let right = f.refer_right();
    let old_b = s[a].get(field)->Some_0->Entity_0;
    let nul = FieldValueView::Value(Value::NULL);
    let v = FieldValueView::Value(s[a].value_or_null(left));
    let s2 = match old_b {
        Some(ob) => store_set(s, ob as int, right, nul),
        None => s,
    };
    match old_b {
        Some(ob) => {
            law_store_read_after_write(s, ob as int, right, nul, a, left);
            law_store_read_after_write(s, ob as int, right, nul, ob as int, right);
        },
        None => {},
    }
    let s3 = store_set(s2, b as int, right, v);
    law_store_read_after_write(s2, b as int, right, v, a, left);
    law_store_read_after_write(s2, b as int, right, v, b as int, right);
    match old_b {
        Some(ob) => {
            law_store_read_after_write(s2, b as int, right, v, ob as int, right);
            law_store_read_after_write(s3, a, field, FieldValueView::Entity(Some(b)), ob as int, right);
        },
        None => {},
    }
    law_store_read_after_write(s3, a, field, FieldValueView::Entity(Some(b)), a, left);
    law_store_read_after_write(s3, a, field, FieldValueView::Entity(Some(b)), b as int, right);
    law_store_read_after_write(s3, a, field, FieldValueView::Entity(Some(b)), a, field);
}

/// Setting a pointer of `a` makes `a` hold the entity given, and sets its key
/// field to that entity's key, or to NULL when the pointer is cleared.
pub proof fn law_set_pointer(orm: OrmMetaView, s: Seq<EntityInnerView>, a: int, field: Seq<char>, opt: Option<EntityId>)
    requires
        set_entity_ok(orm, s, a, field, opt),
        relation_of(orm, s[a], field).is_kind(ReferKind::Pointer),
        relation_of(orm, s[a], field).refer_left() != field,
    ensures
        ({
            let f = relation_of(orm, s[a], field);
            let s2 = set_entity_spec(orm, s, a, field, opt);
            &&& s2.len() == s.len()
            &&& s2[a].get(field) == Some(FieldValueView::Entity(opt))
            &&& s2[a].get(f.refer_left()) == Some(
                FieldValueView::Value(
                    match opt {
                        Some(b) => s[b as int].value_or_null(f.refer_right()),
                        None => Value::NULL,
                    },
                ),
            )
        }),
{
    let f = relation_of(orm, s[a], field);
    let left = f.refer_left();
    let v = FieldValueView::Value(
        match opt {
            Some(b) => s[b as int].value_or_null(f.refer_right()),
            None => Value::NULL,
        },
    );
    let s1 = store_set(s, a, left, v);
    law_store_read_after_write(s, a, left, v, a, left);
    law_store_read_after_write(s1, a, field, FieldValueView::Entity(opt), a, left);
    law_store_read_after_write(s1, a, field, FieldValueView::Entity(opt), a, field);
}

// ---------------------------------------------------------------------------
// Plans of trees.

/// The nodes of a tree numbered from `base` link only to later nodes of the
/// same tree, and name no particular entities.
pub proof fn lemma_insert_nodes_links(ins: Insert, base: int)
    requires
        0 <= base,
        base + insert_nodes(ins, base).len() <= usize::MAX,
    ensures
        ({
            let ns = insert_nodes(ins, base);
            &&& ns.len() >= 1
            &&& forall|n: int, i: int|
                0 <= n < ns.len() && 0 <= i < ns[n].withs.len() ==> base + n < (#[trigger] ns[n].withs[i]).1 < base
                    + ns.len()
            &&& forall|n: int| 0 <= n < ns.len() ==> (#[trigger] ns[n]).entity_withs.len() == 0 && ns[n].withs.len() <= usize::MAX
        }),
    decreases ins, 3int, 0int,
{
    let len = ins.withs@.len() as int;
    lemma_insert_subnodes_links(ins, base, len);
    lemma_insert_links_bound(ins, base, len);
    let ns = insert_nodes(ins, base);
    let sub = insert_subnodes(ins, base, len);
    assert forall|n: int, i: int| 0 <= n < ns.len() && 0 <= i < ns[n].withs.len() implies base + n < (
    #[trigger] ns[n].withs[i]).1 < base + ns.len() by {
        if n > 0 {
            assert(ns[n] == sub[n - 1]);
        }
    }
    assert forall|n: int| 0 <= n < ns.len() implies (#[trigger] ns[n]).entity_withs.len() == 0 && ns[n].withs.len() <= usize::MAX by {
        if n > 0 {
            assert(ns[n] == sub[n - 1]);
        } else {
            assert(ins.withs.len() == len);
        }
    }
}

/// The root's links point past the root and into its sub-trees.
pub proof fn lemma_insert_links_bound(ins: Insert, base: int, k: int)
    requires
        0 <= k <= ins.withs@.len(),
        0 <= base,
        base + 1 + insert_subnodes(ins, base, ins.withs@.len() as int).len() <= usize::MAX,
    ensures
        insert_links(ins, base, k).len() == k,
        forall|i: int|
            0 <= i < k ==> base < (#[trigger] insert_links(ins, base, k)[i]).1 < base + 1 + insert_subnodes(
                ins,
                base,
                ins.withs@.len() as int,
            ).len(),
    decreases ins, 2int, k,
{
    if k > 0 {
        lemma_insert_links_bound(ins, base, k - 1);
        lemma_insert_subnodes_grow(ins, base, k - 1, ins.withs@.len() as int);
        let l = insert_links(ins, base, k);
        assert forall|i: int| 0 <= i < k implies base < (#[trigger] l[i]).1 < base + 1 + insert_subnodes(
            ins,
            base,
            ins.withs@.len() as int,
        ).len() by {
            if i < k - 1 {
                assert(l[i] == insert_links(ins, base, k - 1)[i]);
            }
        }
    }
}

/// Each sub-tree adds at least one node.
pub proof fn lemma_insert_subnodes_grow(ins: Insert, base: int, j: int, k: int)
    requires
        0 <= j < k <= ins.withs@.len(),
        0 <= base,
        base + 1 + insert_subnodes(ins, base, k).len() <= usize::MAX,
    ensures
        insert_subnodes(ins, base, j).len() < insert_subnodes(ins, base, k).len(),
    decreases ins, 1int, k - j,
{
    lemma_insert_decreases(ins, k - 1);
    assert(insert_subnodes(ins, base, k) == insert_subnodes(ins, base, k - 1) + insert_nodes(
        ins.withs@[k - 1].1,
        base + 1 + insert_subnodes(ins, base, k - 1).len(),
    ));
    lemma_insert_nodes_links(ins.withs@[k - 1].1, base + 1 + insert_subnodes(ins, base, k - 1).len());
    if j < k - 1 {
        lemma_insert_subnodes_grow(ins, base, j, k - 1);
    }
}

/// The nodes of the first `k` sub-trees link only to later nodes among them.
pub proof fn lemma_insert_subnodes_links(ins: Insert, base: int, k: int)
    requires
        0 <= k <= ins.withs@.len(),
        0 <= base,
        base + 1 + insert_subnodes(ins, base, k).len() <= usize::MAX,
    ensures
        ({
            let sub = insert_subnodes(ins, base, k);
            &&& forall|m: int, i: int|
                0 <= m < sub.len() && 0 <= i < sub[m].withs.len() ==> base + 1 + m < (
                #[trigger] sub[m].withs[i]).1 < base + 1 + sub.len()
            &&& forall|m: int| 0 <= m < sub.len() ==> (#[trigger] sub[m]).entity_withs.len() == 0 && sub[m].withs.len() <= usize::MAX
        }),
    decreases ins, 0int, k,
{
    if k > 0 {
        lemma_insert_decreases(ins, k - 1);
        lemma_insert_subnodes_links(ins, base, k - 1);
        let prev = insert_subnodes(ins, base, k - 1);
        let cb = base + 1 + prev.len();
        lemma_insert_nodes_links(ins.withs@[k - 1].1, cb);
        let child = insert_nodes(ins.withs@[k - 1].1, cb);
        let sub = insert_subnodes(ins, base, k);
        assert(sub == prev + child);
        assert forall|m: int, i: int| 0 <= m < sub.len() && 0 <= i < sub[m].withs.len() implies base + 1 + m < (
        #[trigger] sub[m].withs[i]).1 < base + 1 + sub.len() by {
            if m < prev.len() {
                assert(sub[m] == prev[m]);
            } else {
                assert(sub[m] == child[m - prev.len()]);
            }
        }
        assert forall|m: int| 0 <= m < sub.len() implies (#[trigger] sub[m]).entity_withs.len() == 0 && sub[m].withs.len() <= usize::MAX by {
            if m < prev.len() {
                assert(sub[m] == prev[m]);
            } else {
                assert(sub[m] == child[m - prev.len()]);
            }
        }
    }
}

/// The plan of an `Insert` tree is well formed: every followed relation links
/// a node to a later node of the plan, so a run never meets a missing node,
/// and no node follows more relations than a machine word can count.
pub proof fn law_insert_plan_well_formed(ins: Insert)
    requires
        insert_plan(ins).len() <= usize::MAX,
    ensures
        ({
            let p = insert_plan(ins);
            &&& p.len() >= 1
            &&& forall|n: int, i: int|
                0 <= n < p.len() && 0 <= i < p[n].withs.len() ==> n < (#[trigger] p[n].withs[i]).1 < p.len()
            &&& forall|n: int| 0 <= n < p.len() ==> (#[trigger] p[n]).entity_withs.len() == 0 && p[n].withs.len() <= usize::MAX
        }),
{
    lemma_insert_nodes_links(ins, 0);
}

// ---------------------------------------------------------------------------
// What every step of a run keeps.

/// Every link of the plan names one of its nodes.
pub open spec fn plan_wf(plan: Seq<PlanNodeView>) -> bool {
    &&& forall|n: int, i: int|
        0 <= n < plan.len() && 0 <= i < plan[n].withs.len() ==> (#[trigger] plan[n].withs[i]).1 < plan.len()
    &&& forall|n: int, j: int|
        0 <= n < plan.len() && 0 <= j < plan[n].entity_withs.len() ==> (#[trigger] plan[n].entity_withs[j]).1
            < plan.len()
}

/// A frame stands at a node of the plan, at a relation the node follows.
pub open spec fn frame_wf(plan: Seq<PlanNodeView>, f: FrameView) -> bool {
    &&& f.node < plan.len()
    &&& match f.phase {
        PhaseView::PointerDone(i, _) => i < plan[f.node as int].withs.len(),
        PhaseView::Many(i, _) => i < plan[f.node as int].withs.len(),
        _ => true,
    }
}

/// A run is well formed: its plan is, and each of its frames is.
pub open spec fn runner_wf(r: RunnerView) -> bool {
    &&& plan_wf(r.plan)
    &&& forall|k: int| 0 <= k < r.stack.len() ==> frame_wf(r.plan, #[trigger] r.stack[k])
}

proof fn lemma_lookup_entity_in(s: Seq<(EntityId, usize)>, b: EntityId)
    ensures
        lookup_entity(s, b) matches Some(c) ==> exists|j: int| 0 <= j < s.len() && #[trigger] s[j].1 == c,
    decreases s.len(),
{
    if s.len() > 0 {
        lemma_lookup_entity_in(s.drop_last(), b);
        if lookup_entity(s.drop_last(), b) is Some {
            let c = lookup_entity(s.drop_last(), b)->Some_0;
            let j = choose|j: int| 0 <= j < s.drop_last().len() && #[trigger] s.drop_last()[j].1 == c;
            assert(s[j].1 == c);
        } else if s.last().0 == b {
            assert(s[s.len() - 1].1 == s.last().1);
        }
    }
}

proof fn lemma_child_node_in(plan: Seq<PlanNodeView>, n: int, i: int, b: EntityId)
    requires
        plan_wf(plan),
        0 <= n < plan.len(),
        0 <= i < plan[n].withs.len(),
    ensures
        child_node(plan[n], i, b) < plan.len(),
{
    lemma_lookup_entity_in(plan[n].entity_withs, b);
    assert(plan[n].withs[i].1 < plan.len());
    if lookup_entity(plan[n].entity_withs, b) is Some {
        let c = lookup_entity(plan[n].entity_withs, b)->Some_0;
        let j = choose|j: int| 0 <= j < plan[n].entity_withs.len() && #[trigger] plan[n].entity_withs[j].1 == c;
        assert(plan[n].entity_withs[j].1 < plan.len());
    }
}

proof fn lemma_with_phase_wf(r: RunnerView, ph: PhaseView)
    requires
        runner_wf(r),
        r.stack.len() > 0,
        frame_wf(r.plan, FrameView { node: r.stack.last().node, entity: r.stack.last().entity, phase: ph }),
    ensures
        runner_wf(r.with_phase(ph)),
{
    let r2 = r.with_phase(ph);
    assert forall|k: int| 0 <= k < r2.stack.len() implies frame_wf(r2.plan, #[trigger] r2.stack[k]) by {
        if k < r.stack.len() - 1 {
            assert(r2.stack[k] == r.stack[k]);
        }
    }
}

proof fn lemma_with_child_wf(r: RunnerView, ph: PhaseView, c: usize, b: EntityId)
    requires
        runner_wf(r),
        r.stack.len() > 0,
        frame_wf(r.plan, FrameView { node: r.stack.last().node, entity: r.stack.last().entity, phase: ph }),
        c < r.plan.len(),
    ensures
        runner_wf(r.with_child(ph, c, b)),
{
    lemma_with_phase_wf(r, ph);
    let r1 = r.with_phase(ph);
    let r2 = r.with_child(ph, c, b);
    assert forall|k: int| 0 <= k < r2.stack.len() implies frame_wf(r2.plan, #[trigger] r2.stack[k]) by {
        if k < r1.stack.len() {
            assert(r2.stack[k] == r1.stack[k]);
        }
    }
}

/// Every step of a run, and every outcome it is told, keeps the run well
/// formed: each entity being stored stands at a node of the plan.
pub proof fn law_runner_wf_kept(r: RunnerView, orm: OrmMetaView, s: Seq<EntityInnerView>, affected: u64, last_id: u64)
    requires
        runner_wf(r),
    ensures
        runner_wf(step_spec(r, orm, s).runner),
        r.awaiting() ==> runner_wf(report_spec(r, orm, s, affected, last_id).runner),
{
    if r.stack.len() > 0 {
        let t = r.stack.last();
        assert(frame_wf(r.plan, r.stack[r.stack.len() - 1]));
        if t.node < r.plan.len() && t.entity < s.len() {
            match orm.entity(s[t.entity as int].entity) {
                None => {},
                Some(m) => {
                    let p = r.plan[t.node as int];
                    match t.phase {
                        PhaseView::Start => {
                            lemma_with_phase_wf(r, PhaseView::Pointer(0));
                        },
                        PhaseView::Pointer(i) => {
                            lemma_with_phase_wf(r, PhaseView::Store);
                            if i < p.withs.len() {
                                lemma_with_phase_wf(r, PhaseView::Pointer((i + 1) as usize));
                                let field = p.withs[i as int].0;
                                match s[t.entity as int].get(field) {
                                    Some(FieldValueView::Entity(Some(b))) => {
                                        lemma_child_node_in(r.plan, t.node as int, i as int, b);
                                        lemma_with_child_wf(r, PhaseView::PointerDone(i, b), child_node(p, i as int, b), b);
                                    },
                                    _ => {},
                                }
                            }
                        },
                        PhaseView::PointerDone(i, b) => {
                            if i < p.withs.len() {
                                lemma_with_phase_wf(r, PhaseView::Pointer((i + 1) as usize));
                            }
                        },
                        PhaseView::Store => {
                            lemma_with_phase_wf(r, PhaseView::Stored);
                        },
                        PhaseView::Stored => {},
                        PhaseView::OneToOne(i) => {
                            lemma_with_phase_wf(r, PhaseView::OneToMany(0));
                            if i < p.withs.len() {
                                lemma_with_phase_wf(r, PhaseView::OneToOne((i + 1) as usize));
                                let field = p.withs[i as int].0;
                                match s[t.entity as int].get(field) {
                                    Some(FieldValueView::Entity(Some(b))) => {
                                        lemma_child_node_in(r.plan, t.node as int, i as int, b);
                                        lemma_with_child_wf(r, PhaseView::OneToOne((i + 1) as usize), child_node(p, i as int, b), b);
                                    },
                                    _ => {},
                                }
                            }
                        },
                        PhaseView::OneToMany(i) => {
                            if i < p.withs.len() {
                                lemma_with_phase_wf(r, PhaseView::OneToMany((i + 1) as usize));
                                let field = p.withs[i as int].0;
                                match s[t.entity as int].get(field) {
                                    Some(FieldValueView::Vec(items)) => {
                                        lemma_with_phase_wf(r, PhaseView::Many(i, items));
                                    },
                                    _ => {},
                                }
                            } else {
                                let r2 = RunnerView { stack: r.stack.drop_last(), ..r };
                                assert forall|k: int| 0 <= k < r2.stack.len() implies frame_wf(r2.plan, #[trigger] r2.stack[k]) by {
                                    assert(r2.stack[k] == r.stack[k]);
                                }
                            }
                        },
                        PhaseView::Many(i, rest) => {
                            if i < p.withs.len() {
                                lemma_with_phase_wf(r, PhaseView::OneToMany((i + 1) as usize));
                                if rest.len() > 0 {
                                    let b = rest[0];
                                    lemma_child_node_in(r.plan, t.node as int, i as int, b);
                                    lemma_with_child_wf(r, PhaseView::Many(i, rest.drop_first()), child_node(p, i as int, b), b);
                                }
                            }
                        },
                    }
                },
            }
        }
        if r.awaiting() {
            lemma_with_phase_wf(r, PhaseView::OneToOne(0));
        }
    }
}

/// A run of an `Insert` tree starts well formed.
pub proof fn law_insert_start_wf(ins: Insert, root: EntityId)
    requires
        insert_plan(ins).len() <= usize::MAX,
    ensures
        runner_wf(
            RunnerView {
                plan: insert_plan(ins),
                stack: seq![FrameView { node: 0, entity: root, phase: PhaseView::Start }],
                total: 0,
            },
        ),
{
    law_insert_plan_well_formed(ins);
}

// ---------------------------------------------------------------------------
// What a whole run does.

/// Running an `Insert` plan step by step, with the database answering each
/// `INSERT` in turn from `db`, does what storing the root entity recursively
/// does: each entity is checked, the entities its pointers hold are stored
/// first and their keys taken, then the entity itself, then the entities of
/// its one-to-one and one-to-many relations, each given this entity's key.
/// After as many steps as the recursive reading takes, the run is done with
/// the same store, statements and row count, or stopped for the same reason
/// after the same statements.
pub proof fn law_insert_run_is_recursive(
    ins: Insert,
    orm: OrmMetaView,
    s: Seq<EntityInnerView>,
    root: EntityId,
    db: Seq<(u64, u64)>,
)
    requires
        insert_plan(ins).len() <= usize::MAX,
    ensures
        ({
            let c = Ctx { plan: insert_plan(ins), orm: orm, db: db };
            let start = Mach {
                r: RunnerView {
                    plan: insert_plan(ins),
                    stack: seq![FrameView { node: 0, entity: root, phase: PhaseView::Start }],
                    total: 0,
                },
                s: s,
                k: 0,
                out: Seq::empty(),
                done: None,
                stop: None,
            };
            let b = entity_run(c, 0, root, Big { s: s, k: 0, total: 0, out: Seq::empty(), steps: 0, stop: None });
            &&& b.stop is None ==> run(c, start, b.steps) == Mach {
                r: RunnerView { plan: insert_plan(ins), stack: Seq::empty(), total: b.total },
                s: b.s,
                k: b.k,
                out: b.out,
                done: Some(b.total),
                stop: None,
            }
            &&& b.stop matches Some(w) ==> run(c, start, b.steps).stop == Some(w) && run(c, start, b.steps).out
                == b.out
        }),
{
    let c = Ctx { plan: insert_plan(ins), orm: orm, db: db };
    let st0 = Big { s: s, k: 0, total: 0, out: Seq::empty(), steps: 0, stop: None };
    law_insert_plan_well_formed(ins);
    let p = insert_plan(ins);
    assert forall|n: int, i: int, b: EntityId|
        0 <= n < p.len() && 0 <= i < p[n].withs.len() implies n < #[trigger] child_node(p[n], i, b) < p.len() by {
        assert(p[n].entity_withs.len() == 0);
        assert(lookup_entity(p[n].entity_withs, b) is None);
        assert(n < p[n].withs[i].1 < p.len());
    }
    assert forall|n: int| 0 <= n < p.len() implies (#[trigger] p[n]).withs.len() <= usize::MAX by {
        assert(p[n].entity_withs.len() == 0 && p[n].withs.len() <= usize::MAX);
    }
    assert(good(c));
    lemma_entity(c, Seq::empty(), 0, root, st0);
    let f = FrameView { node: 0, entity: root, phase: PhaseView::Start };
    assert(Seq::<FrameView>::empty().push(f) =~= seq![f]);
    assert(at(c, Seq::empty(), 0, root, PhaseView::Start, st0).r.stack == seq![f]);
}

// ---------------------------------------------------------------------------
// Field selections.

/// The five selections of a field list, one after the other: fields that are
/// not relations, then relations of each kind.
pub open spec fn selection_parts(fs: Seq<FieldMetaView>) -> Seq<FieldMetaView> {
    select_fields(fs, FieldSel::NonRefer) + select_fields(fs, FieldSel::Kind(ReferKind::Refer)) + select_fields(
        fs,
        FieldSel::Kind(ReferKind::Pointer),
    ) + select_fields(fs, FieldSel::Kind(ReferKind::OneToOne)) + select_fields(fs, FieldSel::Kind(ReferKind::OneToMany))
}

proof fn lemma_selection_parts(fs: Seq<FieldMetaView>)
    ensures
        selection_parts(fs).to_multiset() =~= fs.to_multiset(),
    decreases fs.len(),
{
    broadcast use vstd::seq_lib::lemma_multiset_commutative, vstd::seq_lib::to_multiset_build;
    broadcast use vstd::multiset::group_multiset_axioms;

    let a = select_fields(fs, FieldSel::NonRefer);
    let b = select_fields(fs, FieldSel::Kind(ReferKind::Refer));
    let c = select_fields(fs, FieldSel::Kind(ReferKind::Pointer));
    let d = select_fields(fs, FieldSel::Kind(ReferKind::OneToOne));
    let e = select_fields(fs, FieldSel::Kind(ReferKind::OneToMany));
    assert(selection_parts(fs).to_multiset() =~= a.to_multiset().add(b.to_multiset()).add(c.to_multiset()).add(
        d.to_multiset(),
    ).add(e.to_multiset()));
    if fs.len() == 0 {
        assert(selection_parts(fs) =~= fs);
    } else {
        let p = fs.drop_last();
        lemma_selection_parts(p);
        let a0 = select_fields(p, FieldSel::NonRefer);
        let b0 = select_fields(p, FieldSel::Kind(ReferKind::Refer));
        let c0 = select_fields(p, FieldSel::Kind(ReferKind::Pointer));
        let d0 = select_fields(p, FieldSel::Kind(ReferKind::OneToOne));
        let e0 = select_fields(p, FieldSel::Kind(ReferKind::OneToMany));
        assert(selection_parts(p).to_multiset() =~= a0.to_multiset().add(b0.to_multiset()).add(c0.to_multiset()).add(
            d0.to_multiset(),
        ).add(e0.to_multiset()));
        assert(fs =~= p.push(fs.last()));
        assert(fs.to_multiset() =~= p.to_multiset().insert(fs.last()));
        let x = fs.last();
        match x {
            FieldMetaView::Relation { kind, .. } => match kind {
                ReferKind::Refer => {
                    assert(a == a0 && c == c0 && d == d0 && e == e0 && b == b0.push(x));
                },
                ReferKind::Pointer => {
                    assert(a == a0 && b == b0 && d == d0 && e == e0 && c == c0.push(x));
                },
                ReferKind::OneToOne => {
                    assert(a == a0 && b == b0 && c == c0 && e == e0 && d == d0.push(x));
                },
                ReferKind::OneToMany => {
                    assert(a == a0 && b == b0 && c == c0 && d == d0 && e == e0.push(x));
                },
            },
            _ => {
                assert(b == b0 && c == c0 && d == d0 && e == e0 && a == a0.push(x));
            },
        }
    }
}

/// Each field of an entity type falls in exactly one of the selections: the
/// fields that are not relations, the plain relations, the pointers, the
/// one-to-one and the one-to-many relations together hold the type's fields,
/// each as often as it occurs there.
pub proof fn law_field_selections_partition(m: EntityMetaView)
    ensures
        (m.non_refer_fields() + select_fields(m.fields(), FieldSel::Kind(ReferKind::Refer)) + select_fields(
            m.fields(),
            FieldSel::Kind(ReferKind::Pointer),
        ) + select_fields(m.fields(), FieldSel::Kind(ReferKind::OneToOne)) + select_fields(
            m.fields(),
            FieldSel::Kind(ReferKind::OneToMany),
        )).to_multiset() == m.fields().to_multiset(),
{
    lemma_selection_parts(m.fields());
}

// ---------------------------------------------------------------------------
// The metadata of a whole declaration list.

/// Adding a key field gives the entity that field and keeps every entity and
/// every field that was there.
proof fn lemma_add_key(o: OrmMetaView, ent: Seq<char>, key: Seq<char>, x: Seq<char>, k: Seq<char>)
    requires
        o.entity(ent) is Some,
    ensures
        add_key(o, ent, key).entity(ent) matches Some(e) && e.field(key) is Some,
        o.entity(x) is Some ==> add_key(o, ent, key).entity(x) is Some,
        (o.entity(x) matches Some(e) && e.field(k) is Some) ==> (add_key(o, ent, key).entity(x) matches Some(e2)
            && e2.field(k) is Some),
{
    let e = o.entity(ent)->Some_0;
    if e.field(key) is None {
        let v = FieldMetaView::Integer { field: key, column: key, number: "u64"@, nullable: true };
        let e2 = EntityMetaView { field_vec: e.field_vec.push(key), field_map: map_put(e.field_map, key, v), ..e };
        law_table_read_after_write(e.field_map, key, v, k);
        law_table_read_after_write(o.entity_map, ent, e2, x);
    }
}

/// Completing the metadata with the key fields of the links `ls` gives both
/// ends of each link their key field, and keeps every entity and field.
proof fn lemma_complete(o: OrmMetaView, ls: Seq<(Seq<char>, FieldMetaView)>, j: int, x: Seq<char>, k: Seq<char>)
    requires
        forall|i: int|
            0 <= i < ls.len() ==> o.entity((#[trigger] ls[i]).0) is Some && o.entity(ls[i].1.refer_entity()) is Some,
    ensures
        0 <= j < ls.len() ==> (complete(o, ls).entity(ls[j].0) matches Some(e) && e.field(ls[j].1.refer_left()) is Some),
        0 <= j < ls.len() ==> (complete(o, ls).entity(ls[j].1.refer_entity()) matches Some(e) && e.field(
            ls[j].1.refer_right(),
        ) is Some),
        o.entity(x) is Some ==> complete(o, ls).entity(x) is Some,
        (o.entity(x) matches Some(e) && e.field(k) is Some) ==> (complete(o, ls).entity(x) matches Some(e2)
            && e2.field(k) is Some),
    decreases ls.len(),
{
    if ls.len() > 0 {
        let p = ls.drop_last();
        assert forall|i: int| 0 <= i < p.len() implies o.entity((#[trigger] p[i]).0) is Some && o.entity(
            p[i].1.refer_entity(),
        ) is Some by {
            assert(p[i] == ls[i]);
        }
        let l = ls.last();
        assert(o.entity(ls[ls.len() - 1].0) is Some);
        let o1 = complete(o, p);
        let lk = l.1.refer_left();
        let re = l.1.refer_entity();
        let rk = l.1.refer_right();
        lemma_complete(o, p, j, x, k);
        lemma_complete(o, p, j, l.0, lk);
        lemma_complete(o, p, j, re, rk);
        let o2 = add_key(o1, l.0, lk);
        lemma_add_key(o1, l.0, lk, x, k);
        lemma_add_key(o1, l.0, lk, re, rk);
        lemma_add_key(o2, re, rk, x, k);
        lemma_add_key(o2, re, rk, l.0, lk);
        assert(complete(o, ls) == add_key(o2, re, rk));
        if 0 <= j < p.len() {
            let lj = p[j];
            assert(lj == ls[j]);
            lemma_complete(o, p, j, lj.0, lj.1.refer_left());
            lemma_add_key(o1, l.0, lk, lj.0, lj.1.refer_left());
            lemma_add_key(o2, re, rk, lj.0, lj.1.refer_left());
            lemma_add_key(o1, l.0, lk, lj.1.refer_entity(), lj.1.refer_right());
            lemma_add_key(o2, re, rk, lj.1.refer_entity(), lj.1.refer_right());
        }
    }
}

/// Reading a list of struct declarations gives every relation its key
/// fields: for the `j`-th relation declared, the entity holding it has the
/// relation's left key field, and the entity it refers to has its right key
/// field (added as an integer field where the declaration lacks it).
pub proof fn law_krate_relation_keys(items: Seq<StructItem>, j: int)
    requires
        krate_ok(items),
        0 <= j < links(base_meta(items).entity_map).len(),
    ensures
        ({
            let l = links(base_meta(items).entity_map)[j];
            let o = krate_meta(items);
            &&& o.entity(l.0) matches Some(e) && e.field(l.1.refer_left()) is Some
            &&& o.entity(l.1.refer_entity()) matches Some(t) && t.field(l.1.refer_right()) is Some
        }),
{
    let b = base_meta(items);
    let ls = links(b.entity_map);
    assert forall|i: int| 0 <= i < ls.len() implies b.entity((#[trigger] ls[i]).0) is Some && b.entity(
        ls[i].1.refer_entity(),
    ) is Some by {
        lemma_link_entity(b.entity_map, i);
    }
    let l = ls[j];
    lemma_complete(b, ls, j, l.0, l.1.refer_left());
}

// ---------------------------------------------------------------------------
// One identity map over the rows of a query.

/// The key of the query's own entity in a row, where the row has one.
pub open spec fn row_key(sel: SelectImpl, row: Seq<(String, Value)>) -> Option<u64> {
    id_of(row_entity(sel, row))
}

/// The name under which the entity of key `id` is remembered.
pub open spec fn self_key(sel: SelectImpl, id: u64) -> Seq<char> {
    sel.alias@ + "_"@ + decimal(id as nat)
}

/// Picking the query's own entity from each row in turn, with one map and
/// one store: what each row gave, and the state at the end.
pub open spec fn pick_self_rows(sel: SelectImpl, rows: Seq<Seq<(String, Value)>>, st: Picked) -> (
    Seq<Option<EntityId>>,
    Picked,
)
    decreases rows.len(),
{
    if rows.len() == 0 {
        (Seq::empty(), st)
    } else {
        let (out, st1) = pick_self_rows(sel, rows.drop_last(), st);
        let (x, st2) = pick_self_spec(sel, rows.last(), st1);
        (out.push(x), st2)
    }
}

/// Some row has the key `id`.
pub open spec fn seen(sel: SelectImpl, rows: Seq<Seq<(String, Value)>>, id: u64) -> bool {
    exists|j: int| 0 <= j < rows.len() && row_key(sel, #[trigger] rows[j]) == Some(id)
}

/// The `k`-th row has a key that no earlier row has.
pub open spec fn first_with_key(sel: SelectImpl, rows: Seq<Seq<(String, Value)>>, k: int) -> bool {
    &&& row_key(sel, rows[k]) is Some
    &&& forall|i: int| 0 <= i < k ==> row_key(sel, #[trigger] rows[i]) != row_key(sel, rows[k])
}

spec fn identity_inv(
    sel: SelectImpl,
    rows: Seq<Seq<(String, Value)>>,
    out: Seq<Option<EntityId>>,
    st: Picked,
    s0: Seq<EntityInnerView>,
) -> bool {
    &&& out.len() == rows.len()
    &&& s0.len() <= st.store.len() <= s0.len() + rows.len()
    &&& forall|j: int| 0 <= j < rows.len() ==> ((#[trigger] out[j]) is None <==> row_key(sel, rows[j]) is None)
    &&& forall|j: int|
        0 <= j < rows.len() && (#[trigger] row_key(sel, rows[j])) is Some ==> map_get(
            st.map,
            self_key(sel, row_key(sel, rows[j])->Some_0),
        ) == out[j]
    &&& forall|id: u64| #[trigger] map_get(st.map, self_key(sel, id)) is Some ==> seen(sel, rows, id)
    &&& forall|k: int|
        0 <= k < rows.len() && #[trigger] first_with_key(sel, rows, k) ==> (out[k] matches Some(x) && s0.len() <= x
            < st.store.len() && st.store[x as int] == row_entity(sel, rows[k]))
}

proof fn lemma_self_key_injective(sel: SelectImpl, a: u64, b: u64)
    requires
        self_key(sel, a) == self_key(sel, b),
    ensures
        a == b,
{
    let p = sel.alias@ + "_"@;
    assert(decimal(a as nat) =~= self_key(sel, a).subrange(p.len() as int, self_key(sel, a).len() as int));
    assert(decimal(b as nat) =~= self_key(sel, b).subrange(p.len() as int, self_key(sel, b).len() as int));
    law_decimal_round_trip(a);
    law_decimal_round_trip(b);
}

proof fn lemma_pick_self_rows(sel: SelectImpl, rows: Seq<Seq<(String, Value)>>, s0: Seq<EntityInnerView>)
    requires
        s0.len() + rows.len() <= usize::MAX,
    ensures
        ({
            let (out, st) = pick_self_rows(sel, rows, Picked { map: Seq::empty(), store: s0, ok: true });
            identity_inv(sel, rows, out, st, s0)
        }),
    decreases rows.len(),
{
    let st0 = Picked { map: Seq::empty(), store: s0, ok: true };
    if rows.len() == 0 {
        assert forall|id: u64| #[trigger] map_get(st0.map, self_key(sel, id)) is Some implies seen(sel, rows, id) by {
            lemma_index_of(keys_of(st0.map), self_key(sel, id));
        }
    } else {
        let p = rows.drop_last();
        let r = rows.last();
        lemma_pick_self_rows(sel, p, s0);
        let (out1, st1) = pick_self_rows(sel, p, st0);
        let (x, st2) = pick_self_spec(sel, r, st1);
        let out = out1.push(x);
        let n = p.len() as int;
        assert forall|i: int| 0 <= i < n implies #[trigger] rows[i] == p[i] by {}
        assert(rows[n] == r);
        assert forall|id: u64| seen(sel, p, id) implies seen(sel, rows, id) by {
            let j = choose|j: int| 0 <= j < p.len() && row_key(sel, #[trigger] p[j]) == Some(id);
            assert(rows[j] == p[j]);
        }
        assert forall|k: int| 0 <= k < n implies #[trigger] first_with_key(sel, rows, k) == first_with_key(sel, p, k) by {
            assert forall|i: int| 0 <= i < k implies #[trigger] rows[i] == p[i] by {}
        }
        match row_key(sel, r) {
            None => {
                assert(st2 == st1 && x is None);
                assert(!first_with_key(sel, rows, n));
            },
            Some(id) => {
                let key = self_key(sel, id);
                assert(key == sel.alias@ + "_"@ + decimal(id as nat));
                match map_get(st1.map, key) {
                    Some(y) => {
                        assert(st2 == st1 && x == Some(y));
                        assert(seen(sel, p, id));
                        let w = choose|j: int| 0 <= j < p.len() && row_key(sel, #[trigger] p[j]) == Some(id);
                        assert(rows[w] == p[w]);
                        assert(!first_with_key(sel, rows, n));
                    },
                    None => {
                        let nx = st1.store.len() as EntityId;
                        lemma_index_of(keys_of(st1.map), key);
                        assert(map_put(st1.map, key, nx) == st1.map.push((key, nx)));
                        assert(st2.map == map_put(st1.map, key, nx));
                        assert(st2.store == st1.store.push(row_entity(sel, r)));
                        law_table_read_after_write(st1.map, key, nx, key);
                        assert forall|id2: u64| id2 != id implies #[trigger] map_get(st2.map, self_key(sel, id2)) == map_get(
                            st1.map,
                            self_key(sel, id2),
                        ) by {
                            if self_key(sel, id2) == key {
                                lemma_self_key_injective(sel, id2, id);
                            }
                            law_table_read_after_write(st1.map, key, nx, self_key(sel, id2));
                        }
                        assert forall|j: int| 0 <= j < n implies row_key(sel, #[trigger] p[j]) != Some(id) by {
                            if row_key(sel, p[j]) == Some(id) {
                                assert(map_get(st1.map, self_key(sel, row_key(sel, p[j])->Some_0)) == out1[j]);
                            }
                        }
                        assert(first_with_key(sel, rows, n));
                        assert forall|id2: u64| #[trigger] map_get(st2.map, self_key(sel, id2)) is Some implies seen(
                            sel,
                            rows,
                            id2,
                        ) by {
                            if id2 == id {
                                assert(row_key(sel, rows[n]) == Some(id));
                            } else {
                                assert(seen(sel, p, id2));
                            }
                        }
                        assert forall|j: int|
                            0 <= j < rows.len() && (#[trigger] row_key(sel, rows[j])) is Some implies map_get(
                            st2.map,
                            self_key(sel, row_key(sel, rows[j])->Some_0),
                        ) == out[j] by {
                            if j < n {
                                assert(rows[j] == p[j]);
                                assert(out[j] == out1[j]);
                            }
                        }
                        assert forall|k: int| 0 <= k < rows.len() && #[trigger] first_with_key(sel, rows, k) implies (
                        out[k] matches Some(z) && s0.len() <= z < st2.store.len() && st2.store[z as int]
                            == row_entity(sel, rows[k])) by {
                            if k < n {
                                assert(first_with_key(sel, p, k));
                                assert(out[k] == out1[k]);
                                assert(rows[k] == p[k]);
                            }
                        }
                    },
                }
            },
        }
        assert(pick_self_rows(sel, rows, st0) == (out, st2));
    }
}

/// Picking the query's own entity from rows in turn, with one map of the
/// entities met: a row gives no entity exactly when it has no key; a row
/// whose key an earlier row had gives the entity made for the first such row,
/// and that entity keeps the values of that first row, which later rows do
/// not overwrite. (The store is taken to have room for one entity per row.)
pub proof fn law_identity_map(sel: SelectImpl, rows: Seq<Seq<(String, Value)>>, s0: Seq<EntityInnerView>)
    requires
        s0.len() + rows.len() <= usize::MAX,
    ensures
        ({
            let (out, st) = pick_self_rows(sel, rows, Picked { map: Seq::empty(), store: s0, ok: true });
            &&& out.len() == rows.len()
            &&& forall|j: int| 0 <= j < rows.len() ==> ((#[trigger] out[j]) is None <==> row_key(sel, rows[j]) is None)
            &&& forall|k: int, j: int|
                0 <= k <= j < rows.len() && first_with_key(sel, rows, k) && row_key(sel, rows[j]) == row_key(
                    sel,
                    rows[k],
                ) ==> #[trigger] out[j] == #[trigger] out[k] && (out[k] matches Some(x) && s0.len() <= x
                    < st.store.len() && st.store[x as int] == row_entity(sel, rows[k]))
        }),
{
    lemma_pick_self_rows(sel, rows, s0);
    let (out, st) = pick_self_rows(sel, rows, Picked { map: Seq::empty(), store: s0, ok: true });
    assert forall|k: int, j: int|
        0 <= k <= j < rows.len() && first_with_key(sel, rows, k) && row_key(sel, rows[j]) == row_key(sel, rows[k])
        implies #[trigger] out[j] == #[trigger] out[k] && (out[k] matches Some(x) && s0.len() <= x < st.store.len()
        && st.store[x as int] == row_entity(sel, rows[k])) by {
        assert(row_key(sel, rows[j]) is Some);
        assert(row_key(sel, rows[k]) is Some);
    }
}

// ---------------------------------------------------------------------------
// Query parameters.

/// The named parameters that a query binds (`get_params`) are, counted as
/// multisets, exactly the `:name` placeholders of its text (`get_sql`): those
/// of its `WHERE` conditions and of its joins' `ON` conditions. This holds
/// where the names written into the text (aliases, tables, columns, fields)
/// hold no `:`, and those that make up parameter names hold no blank either.
pub proof fn law_params_match_placeholders(s: SelectImpl)
    requires
        names_ok(s),
    ensures
        param_names(params_of(s)).to_multiset() == holes(sql_of(s)).to_multiset(),
{
    lemma_params_holes(s);
    lemma_sql_holes(s);
}

// ---------------------------------------------------------------------------
// The identity map with fetched relations.

/// The name under which an entity of key `id` met under the alias `a` is remembered.
pub open spec fn alias_key(a: Seq<char>, id: u64) -> Seq<char> {
    a + "_"@ + decimal(id as nat)
}

/// Names made under two different aliases differ.
proof fn lemma_alias_keys_differ(a1: Seq<char>, a2: Seq<char>, d1: u64, d2: u64)
    requires
        a1 != a2,
    ensures
        alias_key(a1, d1) != alias_key(a2, d2),
{
    reveal_strlit("_");
    let t1 = alias_key(a1, d1);
    let t2 = alias_key(a2, d2);
    let e1 = decimal(d1 as nat);
    let e2 = decimal(d2 as nat);
    let p1 = a1 + "_"@;
    let p2 = a2 + "_"@;
    assert(t1 == p1 + e1);
    assert(t2 == p2 + e2);
    assert(p1.len() == a1.len() + 1);
    assert(p2.len() == a2.len() + 1);
    assert(p1[a1.len() as int] == '_');
    assert(p2[a2.len() as int] == '_');
    assert(digit_value('_') is None);
    if t1 == t2 {
        lemma_decimal_digits(d1 as nat);
        lemma_decimal_digits(d2 as nat);
        let l1 = a1.len() as int;
        let l2 = a2.len() as int;
        assert(t1.len() == t2.len());
        if l1 < l2 {
            assert(t2[l2] == p2[l2]);
            assert(t1[l2] == e1[l2 - p1.len()]);
            assert(digit_value(e1[l2 - p1.len()]) is Some);
        } else if l2 < l1 {
            assert(t1[l1] == p1[l1]);
            assert(t2[l1] == e2[l1 - p2.len()]);
            assert(digit_value(e2[l1 - p2.len()]) is Some);
        } else {
            assert(a1 =~= t1.subrange(0, l1));
            assert(a2 =~= t2.subrange(0, l2));
        }
    }
}

/// No query fetched by `s`, nor `s` itself, has the alias `a`.
pub open spec fn alias_free(s: SelectImpl, a: Seq<char>) -> bool
    decreases s, width(s),
{
    s.alias@ != a && withs_alias_free(s, s.withs@.len() as int, a)
}

pub open spec fn withs_alias_free(s: SelectImpl, n: int, a: Seq<char>) -> bool
    decreases s, n,
{
    if n <= 0 || n > s.withs@.len() {
        true
    } else {
        proof {
            lemma_with_decreases(s, n - 1);
        }
        withs_alias_free(s, n - 1, a) && alias_free(s.withs@[n - 1].1, a)
    }
}

/// Picking from a row with a query none of whose nodes has the alias `a`
/// leaves what the map holds under `a` as it was.
proof fn lemma_inner_keeps(s: SelectImpl, row: Seq<(String, Value)>, st: Picked, a: Seq<char>, id: u64)
    requires
        alias_free(s, a),
    ensures
        map_get(pick_inner_spec(s, row, st).1.map, alias_key(a, id)) == map_get(st.map, alias_key(a, id)),
    decreases s, width(s),
{
    if st.ok {
        let (x, st1) = pick_self_spec(s, row, st);
        match id_of(row_entity(s, row)) {
            None => {},
            Some(id0) => {
                let key = s.alias@ + "_"@ + decimal(id0 as nat);
                assert(key == alias_key(s.alias@, id0));
                lemma_alias_keys_differ(a, s.alias@, id, id0);
                if map_get(st.map, key) is None {
                    lemma_index_of(keys_of(st.map), key);
                    assert(map_put(st.map, key, st.store.len() as EntityId) == st.map.push(
                        (key, st.store.len() as EntityId),
                    ));
                    law_table_read_after_write(st.map, key, st.store.len() as EntityId, alias_key(a, id));
                }
            },
        }
        if x is Some {
            lemma_withs_keep(s, row, x->Some_0, st1, s.withs@.len() as int, a, id);
        }
    }
}

proof fn lemma_withs_keep(s: SelectImpl, row: Seq<(String, Value)>, x: EntityId, st: Picked, n: int, a: Seq<char>, id: u64)
    requires
        withs_alias_free(s, n, a),
        0 <= n <= s.withs@.len(),
    ensures
        map_get(pick_withs_spec(s, row, x, st, n).map, alias_key(a, id)) == map_get(st.map, alias_key(a, id)),
    decreases s, n,
{
    if n > 0 {
        lemma_with_decreases(s, n - 1);
        lemma_withs_keep(s, row, x, st, n - 1, a, id);
        let st1 = pick_withs_spec(s, row, x, st, n - 1);
        if st1.ok {
            lemma_inner_keeps(s.withs@[n - 1].1, row, st1, a, id);
        }
    }
}

/// No query that `sel` fetches, at any depth, has the alias of `sel`.
pub open spec fn alias_unique(sel: SelectImpl) -> bool {
    withs_alias_free(sel, sel.withs@.len() as int, sel.alias@)
}

/// Picking the query's entities from each row in turn, with one map and one
/// store: what each row gave for the query's own entity, and the state at the end.
pub open spec fn pick_inner_rows(sel: SelectImpl, rows: Seq<Seq<(String, Value)>>, st: Picked) -> (
    Seq<Option<EntityId>>,
    Picked,
)
    decreases rows.len(),
{
    if rows.len() == 0 {
        (Seq::empty(), st)
    } else {
        let (out, st1) = pick_inner_rows(sel, rows.drop_last(), st);
        let (x, st2) = pick_inner_spec(sel, rows.last(), st1);
        (out.push(x), st2)
    }
}

spec fn inner_inv(sel: SelectImpl, rows: Seq<Seq<(String, Value)>>, out: Seq<Option<EntityId>>, st: Picked) -> bool {
    &&& out.len() == rows.len()
    &&& st.ok ==> forall|j: int| 0 <= j < rows.len() ==> ((#[trigger] out[j]) is None <==> row_key(sel, rows[j]) is None)
    &&& st.ok ==> forall|j: int|
        0 <= j < rows.len() && (#[trigger] row_key(sel, rows[j])) is Some ==> map_get(
            st.map,
            self_key(sel, row_key(sel, rows[j])->Some_0),
        ) == out[j]
    &&& forall|id: u64| #[trigger] map_get(st.map, self_key(sel, id)) is Some ==> seen(sel, rows, id)
}

proof fn lemma_pick_inner_rows(sel: SelectImpl, rows: Seq<Seq<(String, Value)>>, s0: Seq<EntityInnerView>)
    requires
        alias_unique(sel),
    ensures
        ({
            let (out, st) = pick_inner_rows(sel, rows, Picked { map: Seq::empty(), store: s0, ok: true });
            inner_inv(sel, rows, out, st)
        }),
    decreases rows.len(),
{
    let st0 = Picked { map: Seq::empty(), store: s0, ok: true };
    if rows.len() == 0 {
        assert forall|id: u64| #[trigger] map_get(st0.map, self_key(sel, id)) is Some implies seen(sel, rows, id) by {
            lemma_index_of(keys_of(st0.map), self_key(sel, id));
        }
    } else {
        let p = rows.drop_last();
        let r = rows.last();
        lemma_pick_inner_rows(sel, p, s0);
        let (out1, st1) = pick_inner_rows(sel, p, st0);
        let (x, st2) = pick_inner_spec(sel, r, st1);
        let out = out1.push(x);
        let n = p.len() as int;
        assert forall|i: int| 0 <= i < n implies #[trigger] rows[i] == p[i] by {}
        assert(rows[n] == r);
        assert forall|id: u64| seen(sel, p, id) implies seen(sel, rows, id) by {
            let j = choose|j: int| 0 <= j < p.len() && row_key(sel, #[trigger] p[j]) == Some(id);
            assert(rows[j] == p[j]);
        }
        if !st1.ok {
            assert(st2 == st1 && x is None);
        } else {
            let (y, sp) = pick_self_spec(sel, r, st1);
            // The fetched queries leave what the map holds under the query's own alias.
            assert forall|id2: u64| #[trigger] map_get(st2.map, self_key(sel, id2)) == map_get(
                sp.map,
                self_key(sel, id2),
            ) by {
                if y is Some {
                    assert(self_key(sel, id2) == alias_key(sel.alias@, id2));
                    lemma_withs_keep(sel, r, y->Some_0, sp, sel.withs@.len() as int, sel.alias@, id2);
                }
            }
            assert(x == y);
            match row_key(sel, r) {
                None => {
                    assert(sp == st1);
                },
                Some(id) => {
                    let key = self_key(sel, id);
                    assert(key == sel.alias@ + "_"@ + decimal(id as nat));
                    match map_get(st1.map, key) {
                        Some(z) => {
                            assert(sp == st1 && y == Some(z));
                        },
                        None => {
                            let nx = st1.store.len() as EntityId;
                            lemma_index_of(keys_of(st1.map), key);
                            assert(map_put(st1.map, key, nx) == st1.map.push((key, nx)));
                            assert(sp.map == map_put(st1.map, key, nx));
                            law_table_read_after_write(st1.map, key, nx, key);
                            assert forall|id2: u64| id2 != id implies #[trigger] map_get(sp.map, self_key(sel, id2))
                                == map_get(st1.map, self_key(sel, id2)) by {
                                if self_key(sel, id2) == key {
                                    lemma_self_key_injective(sel, id2, id);
                                }
                                law_table_read_after_write(st1.map, key, nx, self_key(sel, id2));
                            }
                            assert forall|j: int| 0 <= j < n implies row_key(sel, #[trigger] p[j]) != Some(id) by {
                                if row_key(sel, p[j]) == Some(id) {
                                    assert(map_get(st1.map, self_key(sel, row_key(sel, p[j])->Some_0)) == out1[j]);
                                }
                            }
                        },
                    }
                },
            }
            assert forall|id2: u64| #[trigger] map_get(st2.map, self_key(sel, id2)) is Some implies seen(
                sel,
                rows,
                id2,
            ) by {
                if row_key(sel, r) == Some(id2) {
                    assert(row_key(sel, rows[n]) == Some(id2));
                } else {
                    assert(map_get(st2.map, self_key(sel, id2)) == map_get(sp.map, self_key(sel, id2)));
                    assert(map_get(sp.map, self_key(sel, id2)) == map_get(st1.map, self_key(sel, id2)));
                    assert(seen(sel, p, id2));
                }
            }
            if st2.ok {
                assert forall|j: int|
                    0 <= j < rows.len() && (#[trigger] row_key(sel, rows[j])) is Some implies map_get(
                    st2.map,
                    self_key(sel, row_key(sel, rows[j])->Some_0),
                ) == out[j] by {
                    if j < n {
                        assert(rows[j] == p[j]);
                        assert(out[j] == out1[j]);
                        let idj = row_key(sel, p[j])->Some_0;
                        assert(map_get(st2.map, self_key(sel, idj)) == map_get(sp.map, self_key(sel, idj)));
                    } else {
                        let idj = row_key(sel, r)->Some_0;
                        assert(map_get(st2.map, self_key(sel, idj)) == map_get(sp.map, self_key(sel, idj)));
                    }
                }
                assert forall|j: int| 0 <= j < rows.len() implies ((#[trigger] out[j]) is None <==> row_key(
                    sel,
                    rows[j],
                ) is None) by {
                    if j < n {
                        assert(rows[j] == p[j]);
                        assert(out[j] == out1[j]);
                    }
                }
            }
        }
        assert(pick_inner_rows(sel, rows, st0) == (out, st2));
    }
}

/// Picking the query's entities, with the relations it fetches, from rows in
/// turn with one map of the entities met: where picking succeeds, a row gives
/// no entity for the query exactly when it has no key, and a row whose key an
/// earlier row had gives the entity of the first such row. This holds where
/// no fetched query shares the query's alias; the values that entity is made
/// with are those of the first row (`law_identity_map`).
pub proof fn law_identity_map_fetched(sel: SelectImpl, rows: Seq<Seq<(String, Value)>>, s0: Seq<EntityInnerView>)
    requires
        alias_unique(sel),
    ensures
        ({
            let (out, st) = pick_inner_rows(sel, rows, Picked { map: Seq::empty(), store: s0, ok: true });
            &&& out.len() == rows.len()
            &&& st.ok ==> forall|j: int| 0 <= j < rows.len() ==> ((#[trigger] out[j]) is None <==> row_key(sel, rows[j])
                is None)
            &&& st.ok ==> forall|k: int, j: int|
                0 <= k <= j < rows.len() && first_with_key(sel, rows, k) && row_key(sel, rows[j]) == row_key(
                    sel,
                    rows[k],
                ) ==> #[trigger] out[j] == #[trigger] out[k]
        }),
{
    lemma_pick_inner_rows(sel, rows, s0);
    let (out, st) = pick_inner_rows(sel, rows, Picked { map: Seq::empty(), store: s0, ok: true });
    if st.ok {
        assert forall|k: int, j: int|
            0 <= k <= j < rows.len() && first_with_key(sel, rows, k) && row_key(sel, rows[j]) == row_key(sel, rows[k])
            implies #[trigger] out[j] == #[trigger] out[k] by {
            assert(row_key(sel, rows[j]) is Some);
            assert(row_key(sel, rows[k]) is Some);
        }
    }
}

// ---------------------------------------------------------------------------
// Name-keyed tables hold each name once.

/// No name occurs twice among the keys of the table.
pub open spec fn keys_unique<V>(m: Seq<(Seq<char>, V)>) -> bool {
    forall|i: int, j: int| 0 <= i < j < m.len() ==> m[i].0 != m[j].0
}

/// Storing under a name keeps every name once, and the names are those
/// before with the one stored.
pub proof fn law_table_keys_unique<V>(m: Seq<(Seq<char>, V)>, k: Seq<char>, v: V)
    ensures
        keys_unique(m) ==> keys_unique(map_put(m, k, v)),
        forall|n: Seq<char>| #[trigger] keys_of(map_put(m, k, v)).contains(n) <==> (keys_of(m).contains(n) || n == k),
{
    let keys = keys_of(m);
    lemma_index_of(keys, k);
    let i = index_of(keys, k);
    let m2 = map_put(m, k, v);
    if i < 0 {
        assert(keys_of(m2) =~= keys.push(k));
        assert forall|n: Seq<char>| #[trigger] keys_of(m2).contains(n) <==> (keys.contains(n) || n == k) by {
            if keys_of(m2).contains(n) {
                let j = choose|j: int| 0 <= j < keys_of(m2).len() && keys_of(m2)[j] == n;
                if j < keys.len() {
                    assert(keys[j] == n);
                }
            }
            if keys.contains(n) {
                let j = choose|j: int| 0 <= j < keys.len() && keys[j] == n;
                assert(keys_of(m2)[j] == n);
            }
            if n == k {
                assert(keys_of(m2)[keys.len() as int] == k);
            }
        }
        if keys_unique(m) {
            assert forall|a: int, b: int| 0 <= a < b < m2.len() implies m2[a].0 != m2[b].0 by {
                if b == m.len() {
                    assert(keys[a] == m[a].0);
                } else {
                    assert(m2[a] == m[a] && m2[b] == m[b]);
                }
            }
        }
    } else {
        assert(keys_of(m2) =~= keys);
        if keys_unique(m) {
            assert forall|a: int, b: int| 0 <= a < b < m2.len() implies m2[a].0 != m2[b].0 by {
                assert(m2[a].0 == keys_of(m2)[a] && m2[b].0 == keys_of(m2)[b]);
                assert(m[a].0 == keys[a] && m[b].0 == keys[b]);
            }
        }
    }
}

/// Every entry of a table after a write is the one written or one from before.
proof fn lemma_put_entries<V>(m: Seq<(Seq<char>, V)>, k: Seq<char>, v: V, j: int)
    requires
        0 <= j < map_put(m, k, v).len(),
    ensures
        map_put(m, k, v)[j] == (k, v) || (j < m.len() && map_put(m, k, v)[j] == m[j]),
{
    lemma_index_of(keys_of(m), k);
}

/// An entity's tables: each field name is in the table once, and the names
/// in declaration order are exactly the names in the table.
pub open spec fn entity_tables_ok(e: EntityMetaView) -> bool {
    &&& keys_unique(e.field_map)
    &&& forall|n: Seq<char>|
        #![trigger e.field_vec.contains(n)]
        #![trigger keys_of(e.field_map).contains(n)]
        e.field_vec.contains(n) <==> keys_of(e.field_map).contains(n)
}

/// Each entity is in the table once, and each entity's fields are held once.
/// Where `fields_match` is false only the uniqueness is asked for.
pub open spec fn orm_tables_ok(o: OrmMetaView, fields_match: bool) -> bool {
    &&& keys_unique(o.entity_map)
    &&& forall|i: int|
        0 <= i < o.entity_map.len() ==> keys_unique((#[trigger] o.entity_map[i]).1.field_map) && (fields_match
            ==> entity_tables_ok(o.entity_map[i].1))
}

/// Every field of every declared struct is a key, a plain value or a declared
/// relation.
pub open spec fn fields_declared(items: Seq<StructItem>) -> bool {
    forall|i: int|
        0 <= i < items.len() ==> ((#[trigger] items[i]).fields matches Some(fs) ==> forall|j: int|
            0 <= j < fs@.len() ==> field_meta_of(#[trigger] fs@[j], struct_alias(items[i])) is Some)
}

proof fn lemma_fields_map(fs: Seq<StructField>, alias: Seq<char>, declared: bool)
    requires
        declared ==> forall|j: int| 0 <= j < fs.len() ==> field_meta_of(#[trigger] fs[j], alias) is Some,
    ensures
        keys_unique(fields_map(fs, alias)),
        declared ==> forall|n: Seq<char>|
            #![trigger keys_of(fields_map(fs, alias)).contains(n)]
            keys_of(fields_map(fs, alias)).contains(n) <==> fs.map_values(|f: StructField| f.name@).contains(n),
    decreases fs.len(),
{
    if fs.len() > 0 {
        let p = fs.drop_last();
        let l = fs.last();
        assert forall|j: int| declared && 0 <= j < p.len() implies field_meta_of(#[trigger] p[j], alias) is Some by {
            assert(p[j] == fs[j]);
        }
        lemma_fields_map(p, alias, declared);
        let m = fields_map(p, alias);
        let names = fs.map_values(|f: StructField| f.name@);
        let pn = p.map_values(|f: StructField| f.name@);
        assert(names =~= pn.push(l.name@));
        match field_meta_of(l, alias) {
            Some(v) => {
                law_table_keys_unique(m, l.name@, v);
                if declared {
                    assert forall|n: Seq<char>| #[trigger] keys_of(fields_map(fs, alias)).contains(n) <==> names.contains(
                        n,
                    ) by {
                        if names.contains(n) {
                            let j = choose|j: int| 0 <= j < names.len() && names[j] == n;
                            if j < pn.len() {
                                assert(pn[j] == n);
                            }
                        }
                        if pn.contains(n) {
                            let j = choose|j: int| 0 <= j < pn.len() && pn[j] == n;
                            assert(names[j] == n);
                        }
                        if n == l.name@ {
                            assert(names[names.len() - 1] == n);
                        }
                    }
                }
            },
            None => {
                assert(declared ==> field_meta_of(fs[fs.len() - 1], alias) is Some);
            },
        }
    }
}

proof fn lemma_entity_meta_of(item: StructItem, declared: bool)
    requires
        declared ==> (item.fields matches Some(fs) ==> forall|j: int|
            0 <= j < fs@.len() ==> field_meta_of(#[trigger] fs@[j], struct_alias(item)) is Some),
    ensures
        keys_unique(entity_meta_of(item).field_map),
        declared ==> entity_tables_ok(entity_meta_of(item)),
{
    reveal_strlit("id");
    let e = entity_meta_of(item);
    match item.fields {
        None => {},
        Some(fs) => {
            let alias = struct_alias(item);
            lemma_fields_map(fs@, alias, declared);
            let names = fs@.map_values(|f: StructField| f.name@);
            let m = fields_map(fs@, alias);
            if map_get(m, "id"@) is None {
                law_table_keys_unique(m, "id"@, FieldMetaView::Id { auto: true });
                if declared {
                    let fv = seq!["id"@] + names;
                    assert forall|n: Seq<char>| #[trigger] fv.contains(n) <==> (names.contains(n) || n == "id"@) by {
                        if fv.contains(n) {
                            let j = choose|j: int| 0 <= j < fv.len() && fv[j] == n;
                            if j > 0 {
                                assert(names[j - 1] == n);
                            }
                        }
                        if names.contains(n) {
                            let j = choose|j: int| 0 <= j < names.len() && names[j] == n;
                            assert(fv[j + 1] == n);
                        }
                        if n == "id"@ {
                            assert(fv[0] == n);
                        }
                    }
                }
            }
        },
    }
}

proof fn lemma_base_tables(items: Seq<StructItem>, declared: bool)
    requires
        declared ==> fields_declared(items),
    ensures
        orm_tables_ok(base_meta(items), declared),
    decreases items.len(),
{
    if items.len() > 0 {
        let p = items.drop_last();
        let l = items.last();
        assert forall|i: int| declared && 0 <= i < p.len() implies ((#[trigger] p[i]).fields matches Some(fs)
            ==> forall|j: int| 0 <= j < fs@.len() ==> field_meta_of(#[trigger] fs@[j], struct_alias(p[i])) is Some) by {
            assert(p[i] == items[i]);
        }
        lemma_base_tables(p, declared);
        assert(declared ==> (l.fields matches Some(fs) ==> forall|j: int|
            0 <= j < fs@.len() ==> field_meta_of(#[trigger] fs@[j], struct_alias(l)) is Some)) by {
            if declared {
                assert(items[items.len() - 1] == l);
            }
        }
        lemma_entity_meta_of(l, declared);
        let o = base_meta(p);
        let v = entity_meta_of(l);
        law_table_keys_unique(o.entity_map, l.name@, v);
        let m2 = map_put(o.entity_map, l.name@, v);
        assert forall|i: int| 0 <= i < m2.len() implies keys_unique((#[trigger] m2[i]).1.field_map) && (declared
            ==> entity_tables_ok(m2[i].1)) by {
            lemma_put_entries(o.entity_map, l.name@, v, i);
        }
    }
}

proof fn lemma_add_key_tables(o: OrmMetaView, ent: Seq<char>, key: Seq<char>, declared: bool)
    requires
        orm_tables_ok(o, declared),
        o.entity(ent) is Some,
    ensures
        orm_tables_ok(add_key(o, ent, key), declared),
{
    lemma_index_of(keys_of(o.entity_map), ent);
    let e = o.entity(ent)->Some_0;
    let idx = index_of(keys_of(o.entity_map), ent);
    assert(e == o.entity_map[idx].1);
    if e.field(key) is None {
        let fv = FieldMetaView::Integer { field: key, column: key, number: "u64"@, nullable: true };
        let e2 = EntityMetaView { field_vec: e.field_vec.push(key), field_map: map_put(e.field_map, key, fv), ..e };
        law_table_keys_unique(e.field_map, key, fv);
        if declared {
            assert forall|n: Seq<char>| #[trigger] e2.field_vec.contains(n) <==> keys_of(e2.field_map).contains(n) by {
                if e2.field_vec.contains(n) {
                    let j = choose|j: int| 0 <= j < e2.field_vec.len() && e2.field_vec[j] == n;
                    if j < e.field_vec.len() {
                        assert(e.field_vec[j] == n);
                    }
                }
                if e.field_vec.contains(n) {
                    let j = choose|j: int| 0 <= j < e.field_vec.len() && e.field_vec[j] == n;
                    assert(e2.field_vec[j] == n);
                }
                if n == key {
                    assert(e2.field_vec[e.field_vec.len() as int] == n);
                }
            }
        }
        law_table_keys_unique(o.entity_map, ent, e2);
        let m2 = map_put(o.entity_map, ent, e2);
        assert forall|i: int| 0 <= i < m2.len() implies keys_unique((#[trigger] m2[i]).1.field_map) && (declared
            ==> entity_tables_ok(m2[i].1)) by {
            lemma_put_entries(o.entity_map, ent, e2, i);
        }
    }
}

proof fn lemma_complete_tables(o: OrmMetaView, ls: Seq<(Seq<char>, FieldMetaView)>, declared: bool)
    requires
        orm_tables_ok(o, declared),
        forall|i: int|
            0 <= i < ls.len() ==> o.entity((#[trigger] ls[i]).0) is Some && o.entity(ls[i].1.refer_entity()) is Some,
    ensures
        orm_tables_ok(complete(o, ls), declared),
    decreases ls.len(),
{
    if ls.len() > 0 {
        let p = ls.drop_last();
        assert forall|i: int| 0 <= i < p.len() implies o.entity((#[trigger] p[i]).0) is Some && o.entity(
            p[i].1.refer_entity(),
        ) is Some by {
            assert(p[i] == ls[i]);
        }
        lemma_complete_tables(o, p, declared);
        let l = ls.last();
        assert(o.entity(ls[ls.len() - 1].0) is Some);
        let o1 = complete(o, p);
        lemma_complete(o, p, 0, l.0, l.1.refer_left());
        lemma_complete(o, p, 0, l.1.refer_entity(), l.1.refer_right());
        lemma_add_key_tables(o1, l.0, l.1.refer_left(), declared);
        lemma_add_key(o1, l.0, l.1.refer_left(), l.1.refer_entity(), l.1.refer_right());
        lemma_add_key_tables(add_key(o1, l.0, l.1.refer_left()), l.1.refer_entity(), l.1.refer_right(), declared);
    }
}

/// Reading a list of struct declarations holds each entity once in the entity
/// table and each field once in its entity's field table. Where every field
/// of every struct is a key, a plain value or a declared relation, the names
/// of each entity's fields in declaration order are exactly the names in its
/// field table, the key fields that relations add included.
pub proof fn law_krate_tables(items: Seq<StructItem>)
    requires
        krate_ok(items),
    ensures
        orm_tables_ok(krate_meta(items), false),
        fields_declared(items) ==> orm_tables_ok(krate_meta(items), true),
{
    let b = base_meta(items);
    let ls = links(b.entity_map);
    assert forall|i: int| 0 <= i < ls.len() implies b.entity((#[trigger] ls[i]).0) is Some && b.entity(
        ls[i].1.refer_entity(),
    ) is Some by {
        lemma_link_entity(b.entity_map, i);
    }
    lemma_base_tables(items, false);
    lemma_complete_tables(b, ls, false);
    if fields_declared(items) {
        lemma_base_tables(items, true);
        lemma_complete_tables(b, ls, true);
    }
}

// ---------------------------------------------------------------------------
// The aliases that the query builders give.

/// Each fetched query, at every depth, is aliased `<alias>_<field>` after the
/// query that fetches it.
pub open spec fn aliases_nested(s: SelectImpl) -> bool
    decreases s, width(s),
{
    withs_nested(s, s.withs@.len() as int)
}

pub open spec fn withs_nested(s: SelectImpl, n: int) -> bool
    decreases s, n,
{
    if n <= 0 || n > s.withs@.len() {
        true
    } else {
        proof {
            lemma_with_decreases(s, n - 1);
        }
        &&& withs_nested(s, n - 1)
        &&& s.withs@[n - 1].1.alias@ == s.alias@ + "_"@ + s.withs@[n - 1].0@
        &&& aliases_nested(s.withs@[n - 1].1)
    }
}

proof fn lemma_nested_free(c: SelectImpl, a: Seq<char>)
    requires
        aliases_nested(c),
        a.len() < c.alias@.len(),
    ensures
        alias_free(c, a),
    decreases c, width(c),
{
    lemma_nested_withs_free(c, c.withs@.len() as int, a);
}

proof fn lemma_nested_withs_free(c: SelectImpl, n: int, a: Seq<char>)
    requires
        withs_nested(c, n),
        0 <= n <= c.withs@.len(),
        a.len() <= c.alias@.len(),
    ensures
        withs_alias_free(c, n, a),
    decreases c, n,
{
    reveal_strlit("_");
    if n > 0 {
        lemma_with_decreases(c, n - 1);
        lemma_nested_withs_free(c, n - 1, a);
        let w = c.withs@[n - 1];
        assert((c.alias@ + "_"@ + w.0@).len() == c.alias@.len() + 1 + w.0@.len());
        lemma_nested_free(w.1, a);
    }
}

/// Where fetched queries are aliased after the queries that fetch them, no
/// fetched query shares the alias of the query.
pub proof fn law_nested_aliases_unique(s: SelectImpl)
    requires
        aliases_nested(s),
    ensures
        alias_unique(s),
{
    lemma_nested_withs_free(s, s.withs@.len() as int, s.alias@);
}

proof fn lemma_withs_nested_same(s: SelectImpl, s2: SelectImpl, n: int)
    requires
        s2.alias == s.alias,
        0 <= n <= s.withs@.len(),
        n <= s2.withs@.len(),
        forall|k: int| 0 <= k < n ==> s2.withs@[k] == s.withs@[k],
    ensures
        withs_nested(s2, n) == withs_nested(s, n),
    decreases n,
{
    if n > 0 {
        lemma_withs_nested_same(s, s2, n - 1);
        assert(s2.withs@[n - 1] == s.withs@[n - 1]);
    }
}

/// The query builders keep fetched queries aliased after the queries that
/// fetch them: a fresh query has none; setting a condition or adding a join
/// keeps the fetched queries as they are; and fetching a relation adds a
/// query aliased `<alias>_<field>` (`fresh_with`), which the builders leave
/// so since they never change a query's alias.
pub proof fn law_builders_nest_aliases<'a>(
    s: SelectImpl<'a>,
    s2: SelectImpl<'a>,
    field: Seq<char>,
    c: crate::cond::Cond,
    meta: EntityMetaView,
    orm_meta: &'a crate::meta::OrmMeta,
    alias: Seq<char>,
)
    ensures
        fresh(s, meta, orm_meta, alias) ==> aliases_nested(s),
        cond_set(s, s2, c) && aliases_nested(s) ==> aliases_nested(s2),
        join_pushed(s, s2) && aliases_nested(s) ==> aliases_nested(s2),
        with_pushed(s, s2, field) && aliases_nested(s) && s2.withs@.last().1.alias@ == s.alias@ + "_"@ + field
            && aliases_nested(s2.withs@.last().1) ==> aliases_nested(s2),
{
    if cond_set(s, s2, c) || join_pushed(s, s2) {
        lemma_withs_nested_same(s, s2, s.withs@.len() as int);
    }
    if with_pushed(s, s2, field) {
        let n = s.withs@.len() as int;
        assert forall|k: int| 0 <= k < n implies s2.withs@[k] == s.withs@[k] by {
            assert(s2.withs@.drop_last()[k] == s2.withs@[k]);
        }
        lemma_withs_nested_same(s, s2, n);
        assert(s2.withs@[n] == s2.withs@.last());
    }
}

/// The identity-map law holds for every query whose fetched queries are
/// aliased after the queries that fetch them, as the builders make them.
pub proof fn law_identity_map_built(sel: SelectImpl, rows: Seq<Seq<(String, Value)>>, s0: Seq<EntityInnerView>)
    requires
        aliases_nested(sel),
    ensures
        ({
            let (out, st) = pick_inner_rows(sel, rows, Picked { map: Seq::empty(), store: s0, ok: true });
            &&& out.len() == rows.len()
            &&& st.ok ==> forall|j: int| 0 <= j < rows.len() ==> ((#[trigger] out[j]) is None <==> row_key(sel, rows[j])
                is None)
            &&& st.ok ==> forall|k: int, j: int|
                0 <= k <= j < rows.len() && first_with_key(sel, rows, k) && row_key(sel, rows[j]) == row_key(
                    sel,
                    rows[k],
                ) ==> #[trigger] out[j] == #[trigger] out[k]
        }),
{
    law_nested_aliases_unique(sel);
    law_identity_map_fetched(sel, rows, s0);
}

/// For readable declarations whose every field is a key, a plain value or a
/// declared relation, each entity's field names in declaration order are
/// exactly the names of its field table.
pub proof fn law_krate_field_names(items: Seq<StructItem>, name: Seq<char>)
    requires
        krate_ok(items),
        fields_declared(items),
    ensures
        krate_meta(items).entity(name) matches Some(e) ==> e.field_vec.to_set() == keys_of(e.field_map).to_set(),
{
    law_krate_tables(items);
    let o = krate_meta(items);
    lemma_index_of(keys_of(o.entity_map), name);
    let i = index_of(keys_of(o.entity_map), name);
    if i >= 0 {
        let e = o.entity_map[i].1;
        assert(entity_tables_ok(e));
        assert(e.field_vec.to_set() =~= keys_of(e.field_map).to_set()) by {
            assert forall|n: Seq<char>| e.field_vec.to_set().contains(n) <==> keys_of(e.field_map).to_set().contains(n) by {
                assert(e.field_vec.contains(n) <==> keys_of(e.field_map).contains(n));
            }
        }
    }
}

// ---------------------------------------------------------------------------
// What the default insertion tree follows.

/// The field `name` of `m` is a relation that cascades insertion.
pub open spec fn cascades_insert(m: EntityMetaView, name: Seq<char>) -> bool {
    m.field(name) matches Some(f) && f.is_relation() && f.has_cascade(Cascade::Insert)
}

proof fn lemma_cascaded_filter(m: EntityMetaView, k: int)
    requires
        0 <= k <= m.field_vec.len(),
    ensures
        crate::insert::cascaded(m, k) == m.field_vec.take(k).filter(|n: Seq<char>| cascades_insert(m, n)),
    decreases k,
{
    reveal(Seq::filter);
    let pred = |n: Seq<char>| cascades_insert(m, n);
    if k == 0 {
        assert(m.field_vec.take(0) =~= Seq::<Seq<char>>::empty());
    } else {
        lemma_cascaded_filter(m, k - 1);
        let s = m.field_vec.take(k);
        assert(s.drop_last() =~= m.field_vec.take(k - 1));
        assert(s.last() == m.field_vec[k - 1]);
    }
}

/// The default insertion tree of an entity type (`Insert::default_meta`)
/// follows exactly the relation fields of the type that cascade insertion,
/// in declaration order: a relation without `cascade(insert)` is never
/// followed, and each one with it is.
pub proof fn law_default_insert_follows_cascades(orm: OrmMetaView, m: EntityMetaView, ins: Insert, n: nat)
    requires
        is_default_insert(orm, m, ins, n),
    ensures
        ins.withs@.map_values(|w: (String, Insert)| w.0@) == m.field_vec.filter(|name: Seq<char>| cascades_insert(m, name)),
{
    lemma_cascaded_filter(m, m.field_vec.len() as int);
    assert(m.field_vec.take(m.field_vec.len() as int) =~= m.field_vec);
    assert(ins.withs@.map_values(|w: (String, Insert)| w.0@) =~= crate::insert::cascaded_fields(m));
}

// ---------------------------------------------------------------------------
// The comparison operators of conditions.

/// A comparison of two joined fields renders its own operator: `=` for
/// `Eq`, `<>` for `Ne`, `>` for `Gt` and `<` for `Lt`, left field first.
pub proof fn law_join_operators(f1: Seq<char>, f2: Seq<char>, a1: Seq<char>, a2: Seq<char>)
    ensures
        join_cond_sql(seq![JoinItemView::Eq(f1, f2)], a1, a2) == a1 + "."@ + f1 + " = "@ + a2 + "."@ + f2,
        join_cond_sql(seq![JoinItemView::Ne(f1, f2)], a1, a2) == a1 + "."@ + f1 + " <> "@ + a2 + "."@ + f2,
        join_cond_sql(seq![JoinItemView::Gt(f1, f2)], a1, a2) == a1 + "."@ + f1 + " > "@ + a2 + "."@ + f2,
        join_cond_sql(seq![JoinItemView::Lt(f1, f2)], a1, a2) == a1 + "."@ + f1 + " < "@ + a2 + "."@ + f2,
{
    reveal_with_fuel(crate::text::join_spec, 2);
    assert(seq![JoinItemView::Eq(f1, f2)].map_values(|i: JoinItemView| i.sql(a1, a2)) =~= seq![
        a1 + "."@ + f1 + " = "@ + a2 + "."@ + f2,
    ]);
    assert(seq![JoinItemView::Ne(f1, f2)].map_values(|i: JoinItemView| i.sql(a1, a2)) =~= seq![
        a1 + "."@ + f1 + " <> "@ + a2 + "."@ + f2,
    ]);
    assert(seq![JoinItemView::Gt(f1, f2)].map_values(|i: JoinItemView| i.sql(a1, a2)) =~= seq![
        a1 + "."@ + f1 + " > "@ + a2 + "."@ + f2,
    ]);
    assert(seq![JoinItemView::Lt(f1, f2)].map_values(|i: JoinItemView| i.sql(a1, a2)) =~= seq![
        a1 + "."@ + f1 + " < "@ + a2 + "."@ + f2,
    ]);
}

/// A comparison of a field with a value renders its own operator against
/// the parameter `:<alias>_<field>`: `=` for `Eq` (and the key), `<>` for
/// `Ne`, `>` for `Gt`, `<` for `Lt`; the NULL tests bind nothing.
pub proof fn law_cond_operators(f: Seq<char>, v: crate::value::Value, a: Seq<char>)
    ensures
        cond_sql(seq![ItemView::Eq(f, v)], a) == a + "."@ + f + " = "@ + ":"@ + a + "_"@ + f,
        cond_sql(seq![ItemView::Ne(f, v)], a) == a + "."@ + f + " <> "@ + ":"@ + a + "_"@ + f,
        cond_sql(seq![ItemView::Gt(f, v)], a) == a + "."@ + f + " > "@ + ":"@ + a + "_"@ + f,
        cond_sql(seq![ItemView::Lt(f, v)], a) == a + "."@ + f + " < "@ + ":"@ + a + "_"@ + f,
        cond_sql(seq![ItemView::Id(v)], a) == a + "."@ + "id"@ + " = "@ + ":"@ + a + "_"@ + "id"@,
        cond_sql(seq![ItemView::Null(f)], a) == a + "."@ + f + " IS NULL"@,
        cond_sql(seq![ItemView::NotNull(f)], a) == a + "."@ + f + " IS NOT NULL"@,
{
    reveal_with_fuel(crate::text::join_spec, 2);
    let items = seq![ItemView::Eq(f, v), ItemView::Ne(f, v), ItemView::Gt(f, v), ItemView::Lt(f, v), ItemView::Id(v), ItemView::Null(f), ItemView::NotNull(f)];
    assert(seq![ItemView::Eq(f, v)].map_values(|i: ItemView| i.sql(a)) =~= seq![ItemView::Eq(f, v).sql(a)]);
    assert(seq![ItemView::Ne(f, v)].map_values(|i: ItemView| i.sql(a)) =~= seq![ItemView::Ne(f, v).sql(a)]);
    assert(seq![ItemView::Gt(f, v)].map_values(|i: ItemView| i.sql(a)) =~= seq![ItemView::Gt(f, v).sql(a)]);
    assert(seq![ItemView::Lt(f, v)].map_values(|i: ItemView| i.sql(a)) =~= seq![ItemView::Lt(f, v).sql(a)]);
    assert(seq![ItemView::Id(v)].map_values(|i: ItemView| i.sql(a)) =~= seq![ItemView::Id(v).sql(a)]);
    assert(seq![ItemView::Null(f)].map_values(|i: ItemView| i.sql(a)) =~= seq![ItemView::Null(f).sql(a)]);
    assert(seq![ItemView::NotNull(f)].map_values(|i: ItemView| i.sql(a)) =~= seq![ItemView::NotNull(f).sql(a)]);
    assert(a + "."@ + f + " = "@ + ":"@ + a + "_"@ + f =~= ItemView::Eq(f, v).sql(a));
    assert(a + "."@ + f + " <> "@ + ":"@ + a + "_"@ + f =~= ItemView::Ne(f, v).sql(a));
    assert(a + "."@ + f + " > "@ + ":"@ + a + "_"@ + f =~= ItemView::Gt(f, v).sql(a));
    assert(a + "."@ + f + " < "@ + ":"@ + a + "_"@ + f =~= ItemView::Lt(f, v).sql(a));
    assert(a + "."@ + "id"@ + " = "@ + ":"@ + a + "_"@ + "id"@ =~= ItemView::Id(v).sql(a));
}

// ---------------------------------------------------------------------------
// The key fields that relation declarations give.

/// A relation field declared with the attribute of kind `k` and the values
/// `vs` has these key fields (this entity's, the other entity's):
/// - `refer(l, r)`: `l` and `r`;
/// - a pointer: `<field>_id` and `id` with no value, `v` and `id` with one, both values with two;
/// - a one-to-one or one-to-many relation: `id` and `<alias>_id` with no
///   value, `id` and `v` with one (the single value names the other
///   entity's field), both values with two.
pub proof fn law_relation_keys_declared(f: StructField, alias: Seq<char>, k: ReferKind)
    requires
        f.name@ != "id"@,
        !is_integer_type(f.ty@),
        f.ty@ != "String"@,
        relation_kind_of(f.attrs@) == Some(k),
    ensures
        ({
            let vs = decl_values(f.attrs@, kind_attr(k));
            let name = f.name@;
            field_meta_of(f, alias) matches Some(r) && r.is_kind(k) && {
                let (l, rr) = (r.refer_left(), r.refer_right());
                match k {
                    ReferKind::Refer => l == vs[0] && rr == vs[1],
                    ReferKind::Pointer => if vs.len() == 0 {
                        l == name + "_id"@ && rr == "id"@
                    } else if vs.len() == 1 {
                        l == vs[0] && rr == "id"@
                    } else {
                        l == vs[0] && rr == vs[1]
                    },
                    _ => if vs.len() == 0 {
                        l == "id"@ && rr == alias + "_id"@
                    } else if vs.len() == 1 {
                        l == "id"@ && rr == vs[0]
                    } else {
                        l == vs[0] && rr == vs[1]
                    },
                }
            }
        }),
{
}

// ---------------------------------------------------------------------------
// Column types.

/// An integer column is `INTEGER` exactly for the 32-bit Rust types `i32` and
/// `u32`, and `BIGINT` for the 64-bit types `i64` and `u64`: a 64-bit field
/// is never stored in a 32-bit column. A string column is `VARCHAR` of the
/// declared length, and the key is a `BIGINT` primary key, generated by the
/// database where it is `auto`.
pub proof fn law_integer_column_types(column: Seq<char>, field: Seq<char>, number: Seq<char>, nullable: bool)
    ensures
        ({
            let f = FieldMetaView::Integer { field: field, column: column, number: number, nullable: nullable };
            let tail = if nullable { ""@ } else { " NOT NULL"@ };
            &&& (number == "i32"@ || number == "u32"@) ==> f.db_type() == "`"@ + column + "` "@ + "INTEGER"@ + tail
            &&& (number == "i64"@ || number == "u64"@) ==> f.db_type() == "`"@ + column + "` "@ + "BIGINT"@ + tail
        }),
        forall|len: u64| #![auto]
            (FieldMetaView::String { field: field, column: column, len: len, nullable: nullable }).db_type() == "`"@
                + column + "` VARCHAR("@ + decimal(len as nat) + ")"@ + (if nullable { ""@ } else { " NOT NULL"@ }),
        (FieldMetaView::Id { auto: true }).db_type() == "`id` BIGINT PRIMARY KEY NOT NULL AUTO_INCREMENT"@,
        (FieldMetaView::Id { auto: false }).db_type() == "`id` BIGINT PRIMARY KEY NOT NULL"@,
{
    reveal_strlit("i32");
    reveal_strlit("u32");
    reveal_strlit("i64");
    reveal_strlit("u64");
    reveal_strlit("`id` BIGINT PRIMARY KEY NOT NULL");
    reveal_strlit(" AUTO_INCREMENT");
    reveal_strlit("`id` BIGINT PRIMARY KEY NOT NULL AUTO_INCREMENT");
    reveal_strlit("");
    assert("`id` BIGINT PRIMARY KEY NOT NULL"@ + " AUTO_INCREMENT"@ =~= "`id` BIGINT PRIMARY KEY NOT NULL AUTO_INCREMENT"@);
    assert("`id` BIGINT PRIMARY KEY NOT NULL"@ + ""@ =~= "`id` BIGINT PRIMARY KEY NOT NULL"@);
    assert("i64"@ != "i32"@ && "i64"@ != "u32"@ && "u64"@ != "i32"@ && "u64"@ != "u32"@) by {
        assert("i64"@[1] != "i32"@[1]);
        assert("i64"@[0] != "u32"@[0]);
        assert("u64"@[0] != "i32"@[0]);
        assert("u64"@[1] != "u32"@[1]);
    }
}

// ---------------------------------------------------------------------------
// The accessors written for each kind of field.

/// `p` occurs in `t`.
pub open spec fn holds_text(t: Seq<char>, p: Seq<char>) -> bool {
    exists|i: int| 0 <= i && i + p.len() <= t.len() && #[trigger] t.subrange(i, i + p.len()) == p
}

/// The accessors written for a field: a single relation (`refer`, pointer or
/// one-to-one) gets a getter that returns one boxed entity through
/// `inner_get_entity`; a one-to-many relation one that returns a boxed `Vec`
/// through `inner_get_vec`; a key or plain field one through `inner_get_value`.
pub proof fn law_field_accessors(f: FieldMetaView)
    ensures
        f.is_relation() && !f.is_kind(ReferKind::OneToMany) ==> holds_text(field_template(f), "-> Box<${TYPE}>"@)
            && holds_text(field_template(f), "inner_get_entity"@),
        f.is_kind(ReferKind::OneToMany) ==> holds_text(field_template(f), "-> Box<Vec<${TYPE}>>"@) && holds_text(
            field_template(f),
            "inner_get_vec"@,
        ),
        !f.is_relation() ==> holds_text(field_template(f), "inner_get_value"@),
{
    reveal_strlit(r#"
    #[allow(dead_code)]
    pub fn get_${FIELD}(&self) -> Box<${TYPE}> {
        Box::new(self.inner_get_entity("${FIELD}"))
    }
    #[allow(dead_code)]
    pub fn set_${FIELD}(&mut self, value: ${SET_TYPE}) {
        self.inner_set_entity("${FIELD}", value);
    }
    #[allow(dead_code)]
    pub fn set_${FIELD}_null(&self) {
        self.inner_set_entity_null("${FIELD}")
    }
    #[allow(dead_code)]
    pub fn is_${FIELD}_null(&self) -> bool {
        self.inner_is_entity_null("${FIELD}")
    }"#);
    reveal_strlit(r#"
    #[allow(dead_code)]
    pub fn get_${FIELD}(&self) -> Box<Vec<${TYPE}>> {
        Box::new(self.inner_get_vec("${FIELD}"))
    }
    #[allow(dead_code)]
    pub fn set_${FIELD}(&mut self, value: Vec<${TYPE}>) {
        self.inner_set_vec("${FIELD}", value);
    }
    #[allow(dead_code)]
    pub fn is_${FIELD}_null(&self) -> bool {
        self.inner_is_vec_null("${FIELD}")
    }"#);
    reveal_strlit(r#"
    #[allow(dead_code)]
    pub fn get_${FIELD}(&self) -> ${TYPE} {
        self.inner_get_value::<${TYPE}>("${FIELD}")
    }
    #[allow(dead_code)]
    pub fn set_${FIELD}(&mut self, value: ${SET_TYPE}) {
        self.inner_set_value("${FIELD}", value);
    }
    #[allow(dead_code)]
    pub fn set_${FIELD}_null(&self) {
        self.inner_set_value_null("${FIELD}")
    }
    #[allow(dead_code)]
    pub fn is_${FIELD}_null(&self) -> bool {
        self.inner_is_value_null("${FIELD}")
    }"#);
    reveal_strlit("-> Box<${TYPE}>");
    reveal_strlit("inner_get_entity");
    reveal_strlit("-> Box<Vec<${TYPE}>>");
    reveal_strlit("inner_get_vec");
    reveal_strlit("inner_get_value");
    let e = TPL_IMPL_ENTITY@;
    let v = TPL_IMPL_VEC@;
    let w = TPL_IMPL_VALUE@;
    assert(e.subrange(56int, 56int + "-> Box<${TYPE}>"@.len()) =~= "-> Box<${TYPE}>"@);
    assert(e.subrange(96int, 96int + "inner_get_entity"@.len()) =~= "inner_get_entity"@);
    assert(v.subrange(56int, 56int + "-> Box<Vec<${TYPE}>>"@.len()) =~= "-> Box<Vec<${TYPE}>>"@);
    assert(v.subrange(101int, 101int + "inner_get_vec"@.len()) =~= "inner_get_vec"@);
    assert(w.subrange(82int, 82int + "inner_get_value"@.len()) =~= "inner_get_value"@);
    assert(holds_text(e, "-> Box<${TYPE}>"@));
    assert(holds_text(e, "inner_get_entity"@));
    assert(holds_text(v, "-> Box<Vec<${TYPE}>>"@));
    assert(holds_text(v, "inner_get_vec"@));
    assert(holds_text(w, "inner_get_value"@));
}

// ---------------------------------------------------------------------------
// Join kinds, attribute settings and the fields an INSERT sets.

/// Each kind of join is written as its own SQL join.
pub proof fn law_join_kinds()
    ensures
        JoinKind::Inner.sql() == "INNER JOIN"@,
        JoinKind::Outer.sql() == "OUTER JOIN"@,
        JoinKind::Left.sql() == "LEFT JOIN"@,
        JoinKind::Right.sql() == "RIGHT JOIN"@,
{
}

/// The settings of a field's attributes: a field is nullable unless
/// `nullable(false)`; a key is not generated unless `auto(true)`; a string
/// column is 128 long unless `len(n)` gives `n`; relations are fetched lazily
/// unless `fetch(eager)`; `cascade(..)` names `insert`, `update`, `delete`.
pub proof fn law_attribute_settings(attrs: Seq<crate::attr::MetaItem>, n: u64)
    ensures
        decl_value(attrs, "nullable"@) is None ==> nullable_of(attrs),
        decl_value(attrs, "nullable"@) == Some("false"@) ==> !nullable_of(attrs),
        decl_value(attrs, "nullable"@) == Some("true"@) ==> nullable_of(attrs),
        decl_value(attrs, "auto"@) is None ==> !auto_of(attrs),
        decl_value(attrs, "auto"@) == Some("true"@) ==> auto_of(attrs),
        decl_value(attrs, "auto"@) == Some("false"@) ==> !auto_of(attrs),
        decl_value(attrs, "len"@) is None ==> len_of(attrs) == 128,
        decl_value(attrs, "len"@) == Some(decimal(n as nat)) ==> len_of(attrs) == n,
        decl_value(attrs, "fetch"@) is None ==> fetch_of(attrs) == Fetch::Lazy,
        decl_value(attrs, "fetch"@) == Some("eager"@) ==> fetch_of(attrs) == Fetch::Eager,
        decl_value(attrs, "fetch"@) == Some("lazy"@) ==> fetch_of(attrs) == Fetch::Lazy,
        cascade_named("insert"@) == Some(Cascade::Insert),
        cascade_named("update"@) == Some(Cascade::Update),
        cascade_named("delete"@) == Some(Cascade::Delete),
{
    reveal_strlit("true");
    reveal_strlit("false");
    reveal_strlit("eager");
    reveal_strlit("lazy");
    reveal_strlit("insert");
    reveal_strlit("update");
    reveal_strlit("delete");
    assert("eager"@ != "lazy"@) by {
        assert("eager"@[0] != "lazy"@[0]);
    }
    assert("update"@ != "insert"@) by {
        assert("update"@[0] != "insert"@[0]);
    }
    assert("delete"@ != "insert"@ && "delete"@ != "update"@) by {
        assert("delete"@[0] != "insert"@[0]);
        assert("delete"@[0] != "update"@[0]);
    }
    assert("true"@ =~= seq!['t', 'r', 'u', 'e']);
    assert("false"@ =~= seq!['f', 'a', 'l', 's', 'e']);
    assert(DEFAULT_LEN == 128);
    law_decimal_round_trip(n);
}

/// The field `name` is set by the `INSERT` of `e`: `e` holds it, it is not a
/// relation, and it is not a key that the database generates.
pub open spec fn inserted(meta: EntityMetaView, e: EntityInnerView, name: Seq<char>) -> bool {
    let f = meta.field(name)->Some_0;
    &&& e.get(name) is Some
    &&& !f.is_relation()
    &&& !(meta.id_auto() && f.is_id())
}

proof fn lemma_stored_filter(meta: EntityMetaView, e: EntityInnerView, k: int)
    requires
        0 <= k <= meta.field_vec.len(),
    ensures
        stored_fields(meta, e, k) == meta.field_vec.take(k).filter(|n: Seq<char>| inserted(meta, e, n)),
    decreases k,
{
    reveal(Seq::filter);
    if k == 0 {
        assert(meta.field_vec.take(0) =~= Seq::<Seq<char>>::empty());
    } else {
        lemma_stored_filter(meta, e, k - 1);
        let s = meta.field_vec.take(k);
        assert(s.drop_last() =~= meta.field_vec.take(k - 1));
        assert(s.last() == meta.field_vec[k - 1]);
    }
}

/// The `INSERT` of an entity sets exactly the fields, in declaration order,
/// that the entity holds, that are not relations, and that are not a key the
/// database generates.
pub proof fn law_insert_sets(meta: EntityMetaView, e: EntityInnerView)
    ensures
        all_stored_fields(meta, e) == meta.field_vec.filter(|n: Seq<char>| inserted(meta, e, n)),
{
    lemma_stored_filter(meta, e, meta.field_vec.len() as int);
    assert(meta.field_vec.take(meta.field_vec.len() as int) =~= meta.field_vec);
}

/// An entity's table is the one named by `table(..)`, else the struct's own
/// name.
pub proof fn law_struct_table(item: StructItem)
    ensures
        decl_value(item.attrs@, "table"@) is None ==> entity_meta_of(item).table_name == item.name@,
        decl_value(item.attrs@, "table"@) matches Some(t) ==> entity_meta_of(item).table_name == t,
        entity_meta_of(item).entity_name == item.name@,
{
}

// ---------------------------------------------------------------------------
// Rendered queries and entity statements.

/// The `SELECT` of a query labels each column of its entity `alias$field`,
/// the label under which rows are read back (`column_label`, used by
/// `row_entity`), and takes it from `alias.column`.
pub proof fn law_select_columns(s: SelectImpl)
    ensures
        self_columns(s).len() == s.meta@.non_refer_fields().len(),
        forall|k: int|
            0 <= k < self_columns(s).len() ==> #[trigger] self_columns(s)[k] == s.alias@ + "."@
                + s.meta@.non_refer_fields()[k].column_name() + " AS "@ + column_label(
                s.alias@,
                s.meta@.non_refer_fields()[k].field_name(),
            ),
{
    assert forall|k: int| 0 <= k < self_columns(s).len() implies #[trigger] self_columns(s)[k] == s.alias@ + "."@
        + s.meta@.non_refer_fields()[k].column_name() + " AS "@ + column_label(
        s.alias@,
        s.meta@.non_refer_fields()[k].field_name(),
    ) by {
        let f = s.meta@.non_refer_fields()[k];
        assert(s.alias@ + "."@ + f.column_name() + " AS "@ + s.alias@ + "$"@ + f.field_name() =~= s.alias@ + "."@
            + f.column_name() + " AS "@ + column_label(s.alias@, f.field_name()));
    }
}

/// A fetched relation is joined as `LEFT JOIN table AS sub ON alias.left =
/// sub.right`, where `sub` is the alias of the fetched query itself (as the
/// builders make it, `<alias>_<field>`), `left` is the column of this
/// entity's key field and `right` that of the other entity's.
pub proof fn law_fetch_join(s: SelectImpl, i: int)
    requires
        aliases_nested(s),
        0 <= i < s.withs@.len(),
    ensures
        ({
            let field = s.withs@[i].0@;
            let sub = s.withs@[i].1;
            let f = s.meta@.field(field)->Some_0;
            with_table(s, i) == "LEFT JOIN "@ + sub.meta@.table_name + " AS "@ + sub.alias@ + " ON "@ + s.alias@ + "."@
                + s.meta@.field(f.refer_left())->Some_0.column_name() + " = "@ + sub.alias@ + "."@
                + sub.meta@.field(f.refer_right())->Some_0.column_name()
        }),
{
    lemma_nested_child(s, s.withs@.len() as int, i);
}

proof fn lemma_nested_child(s: SelectImpl, n: int, i: int)
    requires
        withs_nested(s, n),
        0 <= i < n <= s.withs@.len(),
    ensures
        s.withs@[i].1.alias@ == s.alias@ + "_"@ + s.withs@[i].0@,
    decreases n,
{
    if i < n - 1 {
        lemma_nested_child(s, n - 1, i);
    }
}

/// The statements of an entity type: each names its table; `INSERT` lists
/// the plain columns and binds each to the parameter of its name; `UPDATE`
/// sets each plain column from its parameter, keyed by `:id`; `SELECT` and
/// `DELETE` go by `:id`; `DROP TABLE` drops the table if it exists.
pub proof fn law_entity_statements(m: EntityMetaView)
    ensures
        m.insert_sql() == "INSERT INTO `"@ + m.table_name + "`("@ + crate::text::join_spec(m.columns(), ", "@)
            + ") VALUES ("@ + crate::text::join_spec(m.columns().map_values(|c: Seq<char>| ":"@ + c), ", "@) + ")"@,
        m.update_sql() == "UPDATE `"@ + m.table_name + "` SET "@ + crate::text::join_spec(
            m.columns().map_values(|c: Seq<char>| c + " = :"@ + c),
            ", "@,
        ) + " where id = :id"@,
        m.get_sql() == "SELECT * FROM `"@ + m.table_name + "` WHERE id = :id"@,
        m.delete_sql() == "DELETE FROM `"@ + m.table_name + "` WHERE id = :id"@,
        m.drop_table_sql() == "DROP TABLE IF EXISTS `"@ + m.table_name + "`"@,
        m.columns() == m.normal_fields().map_values(|f: FieldMetaView| f.column_name()),
{
}

// ---------------------------------------------------------------------------
// New entities, the INSERT of one entity, and relation attributes.

/// What a field of a new entity starts with: no entities for a one-to-many
/// relation, no entity for any other relation, NULL for a key or plain field.
pub open spec fn starts_with(f: FieldMetaView) -> FieldValueView {
    if f.is_kind(ReferKind::OneToMany) {
        FieldValueView::Vec(Seq::empty())
    } else if f.is_relation() {
        FieldValueView::Entity(None)
    } else {
        FieldValueView::Value(Value::NULL)
    }
}

proof fn lemma_default_fields(meta: EntityMetaView, k: int, name: Seq<char>)
    requires
        0 <= k <= meta.field_vec.len(),
    ensures
        map_get(default_fields(meta, k), name) == if meta.field_vec.take(k).contains(name) {
            Some(starts_with(meta.field(name)->Some_0))
        } else {
            None::<FieldValueView>
        },
    decreases k,
{
    if k == 0 {
        assert(meta.field_vec.take(0) =~= Seq::<Seq<char>>::empty());
        lemma_index_of(keys_of(default_fields(meta, 0)), name);
    } else {
        lemma_default_fields(meta, k - 1, name);
        let last = meta.field_vec[k - 1];
        let prev = default_fields(meta, k - 1);
        let v = default_value(meta.field(last)->Some_0);
        law_table_read_after_write(prev, last, v, name);
        let s = meta.field_vec.take(k);
        assert(s =~= meta.field_vec.take(k - 1).push(last));
        if name == last {
            assert(s[k - 1] == name);
        } else {
            assert(s.contains(name) ==> meta.field_vec.take(k - 1).contains(name)) by {
                if s.contains(name) {
                    let j = choose|j: int| 0 <= j < s.len() && s[j] == name;
                    assert(meta.field_vec.take(k - 1)[j] == name);
                }
            }
            assert(meta.field_vec.take(k - 1).contains(name) ==> s.contains(name)) by {
                if meta.field_vec.take(k - 1).contains(name) {
                    let pre = meta.field_vec.take(k - 1);
                    let j = choose|j: int| 0 <= j < pre.len() && #[trigger] pre[j] == name;
                    assert(s[j] == name);
                }
            }
        }
    }
}

/// A new entity (`EntityInner::default`) holds each declared field at its
/// starting value (see `starts_with`) and no other field.
pub proof fn law_default_entity(meta: EntityMetaView, name: Seq<char>)
    ensures
        map_get(default_fields(meta, meta.field_vec.len() as int), name) == if meta.field_vec.contains(name) {
            Some(starts_with(meta.field(name)->Some_0))
        } else {
            None::<FieldValueView>
        },
{
    lemma_default_fields(meta, meta.field_vec.len() as int, name);
    assert(meta.field_vec.take(meta.field_vec.len() as int) =~= meta.field_vec);
}

/// The `INSERT` of an entity sets each field it stores from the parameter of
/// the field's name, which holds the entity's value for that field.
pub proof fn law_insert_binds(meta: EntityMetaView, e: EntityInnerView)
    ensures
        ({
            let fs = all_stored_fields(meta, e);
            let ps = self_insert_params(meta, e);
            &&& self_insert_sql(meta, e) == "INSERT INTO `"@ + meta.table_name + "` SET "@ + crate::text::join_spec(
                fs.map_values(|f: Seq<char>| "`"@ + f + "` = :"@ + f),
                ", "@,
            )
            &&& ps.len() == fs.len()
            &&& forall|k: int| 0 <= k < ps.len() ==> #[trigger] ps[k] == (fs[k], e.value_or_null(fs[k]))
        }),
{
}

/// The attribute of each relation kind, and the kind a field's attributes
/// declare: the first present of `refer`, `pointer`, `one_one`, `one_many`.
pub proof fn law_relation_attributes(attrs: Seq<crate::attr::MetaItem>)
    ensures
        crate::visitor::kind_attr(ReferKind::Refer) == "refer"@,
        crate::visitor::kind_attr(ReferKind::Pointer) == "pointer"@,
        crate::visitor::kind_attr(ReferKind::OneToOne) == "one_one"@,
        crate::visitor::kind_attr(ReferKind::OneToMany) == "one_many"@,
        decl_item(attrs, "refer"@) is Some ==> relation_kind_of(attrs) == Some(ReferKind::Refer),
        decl_item(attrs, "refer"@) is None && decl_item(attrs, "pointer"@) is Some ==> relation_kind_of(attrs) == Some(
            ReferKind::Pointer,
        ),
        decl_item(attrs, "refer"@) is None && decl_item(attrs, "pointer"@) is None && decl_item(attrs, "one_one"@) is Some
            ==> relation_kind_of(attrs) == Some(ReferKind::OneToOne),
        decl_item(attrs, "refer"@) is None && decl_item(attrs, "pointer"@) is None && decl_item(attrs, "one_one"@) is None
            && decl_item(attrs, "one_many"@) is Some ==> relation_kind_of(attrs) == Some(ReferKind::OneToMany),
        decl_item(attrs, "refer"@) is None && decl_item(attrs, "pointer"@) is None && decl_item(attrs, "one_one"@) is None
            && decl_item(attrs, "one_many"@) is None ==> relation_kind_of(attrs) is None,
{
}

/// The column type attached to a field type: `INTEGER` for `i32`, `BIGINT`
/// for `i64` (never the 32-bit column), `VARCHAR(len)` for `String`, each
/// followed by ` NOT NULL` exactly when the field does not allow NULL.
pub proof fn law_attached_column_types(len: u64, nullable: bool)
    ensures
        crate::types::db_type_spec("i32"@, len, nullable) == "INTEGER"@ + (if nullable { ""@ } else { " NOT NULL"@ }),
        crate::types::db_type_spec("i64"@, len, nullable) == "BIGINT"@ + (if nullable { ""@ } else { " NOT NULL"@ }),
        crate::types::db_type_spec("String"@, len, nullable) == "VARCHAR("@ + decimal(len as nat) + ")"@ + (if nullable {
            ""@
        } else {
            " NOT NULL"@
        }),
{
    reveal_strlit("i32");
    reveal_strlit("i64");
    reveal_strlit("String");
    assert("i64"@ != "i32"@) by {
        assert("i64"@[1] != "i32"@[1]);
    }
    assert("String"@ != "i32"@ && "String"@ != "i64"@) by {
        assert("String"@[0] != "i32"@[0]);
    }
}

// ---------------------------------------------------------------------------
// Reading an entity from a row.

/// What a row gives for a field: its column value, where the row has the
/// column labelled `alias$name`.
pub open spec fn row_value(row: Seq<(String, Value)>, alias: Seq<char>, name: Seq<char>) -> Option<FieldValueView> {
    match entry_get(row, column_label(alias, name)) {
        Some(v) => Some(FieldValueView::Value(v)),
        None => None,
    }
}

proof fn lemma_values_set(
    e: EntityInnerView,
    fs: Seq<FieldMetaView>,
    row: Seq<(String, Value)>,
    alias: Seq<char>,
    n: int,
    name: Seq<char>,
)
    requires
        0 <= n <= fs.len(),
        e.fields.len() == 0,
    ensures
        crate::rows::values_set(e, fs, row, alias, n).get(name) == if fs.take(n).map_values(
            |f: FieldMetaView| f.field_name(),
        ).contains(name) {
            row_value(row, alias, name)
        } else {
            None::<FieldValueView>
        },
    decreases n,
{
    let names = fs.take(n).map_values(|f: FieldMetaView| f.field_name());
    if n == 0 {
        lemma_index_of(keys_of(e.fields), name);
        assert(names =~= Seq::<Seq<char>>::empty());
    } else {
        lemma_values_set(e, fs, row, alias, n - 1, name);
        let prev = crate::rows::values_set(e, fs, row, alias, n - 1);
        let nm = fs[n - 1].field_name();
        let pnames = fs.take(n - 1).map_values(|f: FieldMetaView| f.field_name());
        assert(names =~= pnames.push(nm));
        match entry_get(row, column_label(alias, nm)) {
            Some(v) => {
                law_field_read_after_write(prev, nm, FieldValueView::Value(v), name);
            },
            None => {},
        }
        if name == nm {
            assert(names[n - 1] == name);
        } else {
            if names.contains(name) {
                let j = choose|j: int| 0 <= j < names.len() && names[j] == name;
                assert(pnames[j] == name);
            }
            if pnames.contains(name) {
                let j = choose|j: int| 0 <= j < pnames.len() && pnames[j] == name;
                assert(names[j] == name);
            }
        }
    }
}

/// The entity that a query reads from a row holds, for each of its type's key
/// and plain fields, exactly the value of the row's column labelled
/// `alias$field` (the label the query's `SELECT` gives it), and nothing else.
pub proof fn law_row_entity_reads_labels(sel: SelectImpl, row: Seq<(String, Value)>, name: Seq<char>)
    ensures
        row_entity(sel, row).get(name) == if sel.meta@.non_refer_fields().map_values(|f: FieldMetaView| f.field_name()).contains(
            name,
        ) {
            row_value(row, sel.alias@, name)
        } else {
            None::<FieldValueView>
        },
        row_entity(sel, row).entity == sel.meta@.entity_name,
{
    let fs = sel.meta@.non_refer_fields();
    let e0 = EntityInnerView { entity: sel.meta@.entity_name, fields: Seq::empty(), cascade: None };
    lemma_values_set(e0, fs, row, sel.alias@, fs.len() as int, name);
    assert(fs.take(fs.len() as int) =~= fs);
    lemma_values_set_entity(e0, fs, row, sel.alias@, fs.len() as int);
}

proof fn lemma_values_set_entity(e: EntityInnerView, fs: Seq<FieldMetaView>, row: Seq<(String, Value)>, alias: Seq<char>, n: int)
    ensures
        crate::rows::values_set(e, fs, row, alias, n).entity == e.entity,
    decreases n,
{
    if n > 0 && n <= fs.len() {
        lemma_values_set_entity(e, fs, row, alias, n - 1);
    }
}

} // verus!
