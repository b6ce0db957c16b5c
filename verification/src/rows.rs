//! Turning the rows that a query returns into entities.
//!
//! Each row holds, for every entity the query selects, its columns labelled
//! `<alias>$<field>`. An entity met in several rows (same alias, same key) is
//! made once; the relations fetched along with it are filled in from each row,
//! and repeated entities are then dropped from the lists.
use vstd::prelude::*;

use crate::assoc::{entry_get, get, index_of, keys_of, map_get, names_of};
use crate::entity::{store_set, EntityInner, EntityInnerView, EntityStore};
use crate::meta::{EntityMeta, EntityMetaView, FieldMetaView, OrmMeta, OrmMetaView, ReferKind};
use crate::select::{lemma_join_decreases, lemma_with_decreases, renderable, width, SelectImpl};
use crate::text::{concat2, decimal, owned, u64_to_string};
use crate::value::{EntityId, FieldValue, FieldValueView, Value};

verus! {

/// The label of the column holding the field `field` of the entity aliased `alias`.
pub open spec fn column_label(alias: Seq<char>, field: Seq<char>) -> Seq<char> {
    alias + "$"@ + field
}

/// The entity `e` with the first `n` fields of `fs` set from the row, where the
/// row has their columns.
pub open spec fn values_set(
    e: EntityInnerView,
    fs: Seq<FieldMetaView>,
    row: Seq<(String, Value)>,
    alias: Seq<char>,
    n: int,
) -> EntityInnerView
    decreases n,
{
    if n <= 0 || n > fs.len() {
        e
    } else {
        let prev = values_set(e, fs, row, alias, n - 1);
        let f = fs[n - 1].field_name();
        match entry_get(row, column_label(alias, f)) {
            Some(v) => prev.set(f, FieldValueView::Value(v)),
            None => prev,
        }
    }
}

impl EntityInner {
    /// Sets the key and plain fields of `meta` from the row, where it has their
    /// columns under the alias `alias`.
    pub fn set_values(&mut self, meta: &EntityMeta, row: &Vec<(String, Value)>, alias: &str)
        requires
            meta@.fields_known(),
        ensures
            final(self)@ == values_set(
                old(self)@,
                meta@.non_refer_fields(),
                row@,
                alias@,
                meta@.non_refer_fields().len() as int,
            ),
    {
        let fields = meta.get_non_refer_fields();
        let ghost fs = meta@.non_refer_fields();
        let ghost e0 = self@;
        let mut i: usize = 0;
        while i < fields.len()
            invariant
                i <= fields@.len(),
                crate::meta::ref_views(fields@) == fs,
                self@ == values_set(e0, fs, row@, alias@, i as int),
            decreases fields.len() - i,
        {
            let f = fields[i];
            assert(fs[i as int] == f@);
            let name = f.get_field_name();
            let mut key = concat2(alias, "$");
            key.append(name.as_str());
            match get(row, key.as_str()) {
                Some(v) => {
                    let v = v.clone();
                    self.set(name.as_str(), FieldValue::Value(v));
                },
                None => {},
            }
            i += 1;
        }
    }
}

/// The key of an entity as an unsigned integer, where it is one.
pub open spec fn id_of(e: EntityInnerView) -> Option<u64> {
    match e.get("id"@) {
        Some(FieldValueView::Value(v)) => v.as_u64_spec(),
        _ => None,
    }
}

impl EntityInner {
    /// The key as an unsigned integer, where it is one.
    pub fn get_id_u64(&self) -> (r: Option<u64>)
        ensures
            r == id_of(self@),
    {
        match self.get("id") {
            Some(FieldValue::Value(v)) => v.as_u64(),
            _ => None,
        }
    }
}

// ---------------------------------------------------------------------------
// Picking the entities of one row.

/// What picking has made so far: the entities met, by `<alias>_<key>`, the
/// store, and whether picking can go on.
pub struct Picked {
    pub map: Seq<(Seq<char>, EntityId)>,
    pub store: Seq<EntityInnerView>,
    pub ok: bool,
}

pub open spec fn key_views(m: Seq<(String, EntityId)>) -> Seq<(Seq<char>, EntityId)> {
    m.map_values(|p: (String, EntityId)| (p.0@, p.1))
}

pub proof fn lemma_key_views(m: Seq<(String, EntityId)>)
    ensures
        keys_of(key_views(m)) == names_of(m),
{
    assert(keys_of(key_views(m)) =~= names_of(m));
}

/// The state of an exec map and store from which picking can go on.
pub open spec fn picking(map: Seq<(String, EntityId)>, store: Seq<EntityInnerView>) -> Picked {
    Picked { map: key_views(map), store: store, ok: true }
}

/// Every entity that the map names is in the store.
pub open spec fn map_below(map: Seq<(Seq<char>, EntityId)>, n: int) -> bool {
    forall|j: int| 0 <= j < map.len() ==> #[trigger] map[j].1 < n
}

/// The entity of the query `sel` that the row holds, made from its columns.
pub open spec fn row_entity(sel: SelectImpl, row: Seq<(String, Value)>) -> EntityInnerView {
    let m = sel.meta@;
    values_set(
        EntityInnerView { entity: m.entity_name, fields: Seq::empty(), cascade: None },
        m.non_refer_fields(),
        row,
        sel.alias@,
        m.non_refer_fields().len() as int,
    )
}

/// Picking the entity of `sel` from a row: none where it has no key; else the
/// entity already met under the same alias and key, or the new one, stored.
pub open spec fn pick_self_spec(sel: SelectImpl, row: Seq<(String, Value)>, st: Picked) -> (Option<EntityId>, Picked) {
    let e = row_entity(sel, row);
    match id_of(e) {
        None => (None, st),
        Some(id) => {
            let key = sel.alias@ + "_"@ + decimal(id as nat);
            match map_get(st.map, key) {
                Some(x) => (Some(x), st),
                None => (
                    Some(st.store.len() as EntityId),
                    Picked { map: st.map.push((key, st.store.len() as EntityId)), store: st.store.push(e), ok: st.ok },
                ),
            }
        },
    }
}

impl<'a> SelectImpl<'a> {
    /// Picks the entity of this query from a row (see `pick_self_spec`).
    pub fn pick_self(&self, row: &Vec<(String, Value)>, map: &mut Vec<(String, EntityId)>, store: &mut EntityStore) -> (r: Option<EntityId>)
        requires
            self.meta@.fields_known(),
            map_below(key_views(old(map)@), old(store)@.len() as int),
        ensures
            (r, picking(final(map)@, final(store)@)) == pick_self_spec(*self, row@, picking(old(map)@, old(store)@)),
            map_below(key_views(final(map)@), final(store)@.len() as int),
            old(store)@.len() <= final(store)@.len(),
    {
        let mut e = EntityInner::new(self.meta);
        assert(e@.fields =~= Seq::<(Seq<char>, FieldValueView)>::empty());
        e.set_values(self.meta, row, self.alias.as_str());
        assert(e@ == row_entity(*self, row@));
        let id = match e.get_id_u64() {
            Some(id) => id,
            None => {
                return None;
            },
        };
        let mut key = concat2(self.alias.as_str(), "_");
        let digits = u64_to_string(id);
        key.append(digits.as_str());
        proof {
            lemma_key_views(map@);
            crate::assoc::lemma_index_of(names_of(map@), key@);
        }
        match get(map, key.as_str()) {
            Some(x) => {
                assert(map_get(key_views(map@), key@) == Some(*x));
                Some(*x)
            },
            None => {
                let ghost m0 = map@;
                let ghost s0 = store@;
                let x = store.add(e);
                map.push((key, x));
                assert(key_views(map@) =~= key_views(m0).push((key@, x)));
                assert(map_below(key_views(map@), store@.len() as int)) by {
                    assert forall|j: int| 0 <= j < key_views(map@).len() implies #[trigger] key_views(map@)[j].1 < store@.len() by {
                        if j < m0.len() {
                            assert(key_views(map@)[j] == key_views(m0)[j]);
                        }
                    }
                }
                assert(map_get(key_views(m0), key@) is None);
                Some(x)
            },
        }
    }
}

/// Picking the entity of `sel` and those of its fetched relations from a row.
pub open spec fn pick_inner_spec(sel: SelectImpl, row: Seq<(String, Value)>, st: Picked) -> (Option<EntityId>, Picked)
    decreases sel, width(sel),
{
    if !st.ok {
        (None, st)
    } else {
        let (a, st1) = pick_self_spec(sel, row, st);
        match a {
            None => (None, st1),
            Some(x) => (Some(x), pick_withs_spec(sel, row, x, st1, sel.withs@.len() as int)),
        }
    }
}

/// Filling the first `n` fetched relations of the entity `a`: a single
/// relation holds the entity picked for it; a one-to-many relation gains it.
pub open spec fn pick_withs_spec(sel: SelectImpl, row: Seq<(String, Value)>, a: EntityId, st: Picked, n: int) -> Picked
    decreases sel, n,
{
    if n <= 0 || n > sel.withs@.len() {
        st
    } else {
        proof {
            lemma_with_decreases(sel, n - 1);
        }
        let st1 = pick_withs_spec(sel, row, a, st, n - 1);
        if !st1.ok {
            st1
        } else {
            let (b, st2) = pick_inner_spec(sel.withs@[n - 1].1, row, st1);
            if !st2.ok {
                st2
            } else {
                let field = sel.withs@[n - 1].0@;
                let f = sel.meta@.field(field)->Some_0;
                if f.is_kind(ReferKind::OneToMany) {
                    match st2.store[a as int].get(field) {
                        None => Picked {
                            store: store_set(
                                st2.store,
                                a as int,
                                field,
                                FieldValueView::Vec(
                                    match b {
                                        Some(y) => seq![y],
                                        None => Seq::empty(),
                                    },
                                ),
                            ),
                            ..st2
                        },
                        Some(FieldValueView::Vec(v)) => match b {
                            Some(y) => Picked { store: store_set(st2.store, a as int, field, FieldValueView::Vec(v.push(y))), ..st2 },
                            None => st2,
                        },
                        Some(_) => if b is Some {
                            Picked { ok: false, ..st2 }
                        } else {
                            st2
                        },
                    }
                } else {
                    Picked { store: store_set(st2.store, a as int, field, FieldValueView::Entity(b)), ..st2 }
                }
            }
        }
    }
}

/// The state after picking, with the map and store of the exec side.
pub open spec fn picked_as(out: (Option<EntityId>, Picked), r: Result<Option<EntityId>, ()>, map: Seq<(String, EntityId)>, store: Seq<EntityInnerView>) -> bool {
    match r {
        Ok(x) => out == (x, picking(map, store)),
        Err(_) => !out.1.ok,
    }
}

impl<'a> SelectImpl<'a> {
    /// Picks the entity of this query and those of its fetched relations from
    /// a row; `Err` where a one-to-many field of an entity met before holds
    /// something else than a list.
    pub fn pick_inner(&self, row: &Vec<(String, Value)>, map: &mut Vec<(String, EntityId)>, store: &mut EntityStore) -> (r: Result<Option<EntityId>, ()>)
        requires
            renderable(*self),
            map_below(key_views(old(map)@), old(store)@.len() as int),
        ensures
            picked_as(pick_inner_spec(*self, row@, picking(old(map)@, old(store)@)), r, final(map)@, final(store)@),
            r is Ok ==> map_below(key_views(final(map)@), final(store)@.len() as int),
            r matches Ok(Some(x)) ==> x < final(store)@.len(),
            old(store)@.len() <= final(store)@.len(),
        decreases self,
    {
        let a = match self.pick_self(row, map, store) {
            Some(a) => a,
            None => {
                return Ok(None);
            },
        };
        proof {
            crate::select::lemma_withs_renderable(*self, self.withs@.len() as int);
        }
        let ghost st1 = picking(map@, store@);
        assert(a < store@.len()) by {
            let e = row_entity(*self, row@);
            let key = self.alias@ + "_"@ + decimal(id_of(e)->Some_0 as nat);
            crate::assoc::lemma_index_of(keys_of(key_views(old(map)@)), key);
        }
        let mut i: usize = 0;
        while i < self.withs.len()
            invariant
                i <= self.withs@.len(),
                renderable(*self),
                forall|k: int| 0 <= k < self.withs@.len() ==> #[trigger] renderable(self.withs@[k].1),
                forall|k: int| 0 <= k < self.withs@.len() ==> #[trigger] crate::select::with_keys_ok(*self, k),
                a < store@.len(),
                old(store)@.len() <= store@.len(),
                map_below(key_views(map@), store@.len() as int),
                picking(map@, store@) == pick_withs_spec(*self, row@, a, st1, i as int),
                pick_inner_spec(*self, row@, picking(old(map)@, old(store)@)) == (Some(a), pick_withs_spec(
                    *self,
                    row@,
                    a,
                    st1,
                    self.withs@.len() as int,
                )),
            decreases self.withs.len() - i,
        {
            proof {
                lemma_with_decreases(*self, i as int);
            }
            let ghost before = picking(map@, store@);
            let b = match self.withs[i].1.pick_inner(row, map, store) {
                Ok(b) => b,
                Err(_) => {
                    proof {
                        lemma_withs_failed(*self, row@, a, st1, i as int + 1);
                    }
                    return Err(());
                },
            };
            let field = self.withs[i].0.as_str();
            assert(crate::select::with_keys_ok(*self, i as int));
            let f = match self.meta.get_field(field) {
                Some(f) => f,
                None => vstd::pervasive::unreached(),
            };
            if f.is_refer_kind(ReferKind::OneToMany) {
                let held = match store.get(a).get(field) {
                    None => None,
                    Some(FieldValue::Vec(v)) => Some(v.clone()),
                    Some(_) => {
                        if b.is_some() {
                            proof {
                                lemma_withs_failed(*self, row@, a, st1, i as int + 1);
                            }
                            return Err(());
                        }
                        i += 1;
                        continue;
                    },
                };
                match held {
                    None => {
                        let mut v: Vec<EntityId> = Vec::new();
                        match b {
                            Some(y) => v.push(y),
                            None => {},
                        }
                        assert(v@ =~= match b {
                            Some(y) => seq![y],
                            None => Seq::<EntityId>::empty(),
                        });
                        store.set_field(a, field, FieldValue::Vec(v));
                    },
                    Some(mut v) => {
                        match b {
                            Some(y) => {
                                v.push(y);
                                store.set_field(a, field, FieldValue::Vec(v));
                            },
                            None => {},
                        }
                    },
                }
            } else {
                store.set_field(a, field, FieldValue::Entity(b));
            }
            i += 1;
        }
        Ok(Some(a))
    }
}

/// Once picking fails, it stays failed.
pub proof fn lemma_withs_failed(sel: SelectImpl, row: Seq<(String, Value)>, a: EntityId, st: Picked, n: int)
    requires
        0 < n <= sel.withs@.len(),
        !pick_withs_spec(sel, row, a, st, n).ok,
    ensures
        !pick_withs_spec(sel, row, a, st, sel.withs@.len() as int).ok,
    decreases sel.withs@.len() - n,
{
    if n < sel.withs@.len() {
        lemma_withs_failed(sel, row, a, st, n + 1);
    }
}

// ---------------------------------------------------------------------------
// All the rows.

/// The query and its joined queries, each before those it joins, in order.
pub open spec fn flat_selects<'a>(sel: SelectImpl<'a>) -> Seq<SelectImpl<'a>>
    decreases sel, width(sel),
{
    seq![sel] + join_flats(sel, sel.joins@.len() as int)
}

pub open spec fn join_flats<'a>(sel: SelectImpl<'a>, n: int) -> Seq<SelectImpl<'a>>
    decreases sel, n,
{
    if n <= 0 || n > sel.joins@.len() {
        Seq::empty()
    } else {
        proof {
            lemma_join_decreases(sel, n - 1);
        }
        join_flats(sel, n - 1) + flat_selects(sel.joins@[n - 1].select)
    }
}

pub open spec fn derefs<'a, 'b>(s: Seq<&'b SelectImpl<'a>>) -> Seq<SelectImpl<'a>> {
    s.map_values(|x: &'b SelectImpl<'a>| *x)
}

/// Every query of `flat_selects` can be rendered when the first one can.
pub proof fn lemma_flat_renderable(sel: SelectImpl)
    requires
        renderable(sel),
    ensures
        forall|i: int| 0 <= i < flat_selects(sel).len() ==> #[trigger] renderable(flat_selects(sel)[i]),
    decreases sel, width(sel),
{
    crate::select::lemma_joins_renderable(sel, sel.joins@.len() as int);
    lemma_join_flats_renderable(sel, sel.joins@.len() as int);
    let f = flat_selects(sel);
    let j = join_flats(sel, sel.joins@.len() as int);
    assert forall|i: int| 0 <= i < f.len() implies #[trigger] renderable(f[i]) by {
        if i > 0 {
            assert(f[i] == j[i - 1]);
        }
    }
}

pub proof fn lemma_join_flats_renderable(sel: SelectImpl, n: int)
    requires
        0 <= n <= sel.joins@.len(),
        forall|k: int| 0 <= k < sel.joins@.len() ==> #[trigger] renderable(sel.joins@[k].select),
    ensures
        forall|i: int| 0 <= i < join_flats(sel, n).len() ==> #[trigger] renderable(join_flats(sel, n)[i]),
    decreases sel, n,
{
    if n > 0 {
        lemma_join_decreases(sel, n - 1);
        lemma_join_flats_renderable(sel, n - 1);
        lemma_flat_renderable(sel.joins@[n - 1].select);
        let p = join_flats(sel, n - 1);
        let q = flat_selects(sel.joins@[n - 1].select);
        assert forall|i: int| 0 <= i < join_flats(sel, n).len() implies #[trigger] renderable(join_flats(sel, n)[i]) by {
            if i < p.len() {
                assert(join_flats(sel, n)[i] == p[i]);
            } else {
                assert(join_flats(sel, n)[i] == q[i - p.len()]);
            }
        }
    }
}

pub open spec fn nested_ids(v: Seq<Vec<EntityId>>) -> Seq<Seq<EntityId>> {
    v.map_values(|x: Vec<EntityId>| x@)
}

pub open spec fn row_views(rows: Seq<Vec<(String, Value)>>) -> Seq<Seq<(String, Value)>> {
    rows.map_values(|r: Vec<(String, Value)>| r@)
}

/// Picking from one row with the first `n` queries of `sels`, each adding the
/// entity it picks to its own list.
pub open spec fn row_spec(
    sels: Seq<SelectImpl>,
    row: Seq<(String, Value)>,
    acc: Seq<Seq<EntityId>>,
    st: Picked,
    n: int,
) -> (Seq<Seq<EntityId>>, Picked)
    decreases n,
{
    if n <= 0 || n > sels.len() {
        (acc, st)
    } else {
        let (acc1, st1) = row_spec(sels, row, acc, st, n - 1);
        if !st1.ok {
            (acc1, st1)
        } else {
            let (x, st2) = pick_inner_spec(sels[n - 1], row, st1);
            (
                match x {
                    Some(y) => acc1.update(n - 1, acc1[n - 1].push(y)),
                    None => acc1,
                },
                st2,
            )
        }
    }
}

/// Picking from the first `k` rows, in order.
pub open spec fn rows_spec(
    sels: Seq<SelectImpl>,
    rows: Seq<Seq<(String, Value)>>,
    acc: Seq<Seq<EntityId>>,
    st: Picked,
    k: int,
) -> (Seq<Seq<EntityId>>, Picked)
    decreases k,
{
    if k <= 0 || k > rows.len() {
        (acc, st)
    } else {
        let (acc1, st1) = rows_spec(sels, rows, acc, st, k - 1);
        if !st1.ok {
            (acc1, st1)
        } else {
            row_spec(sels, rows[k - 1], acc1, st1, sels.len() as int)
        }
    }
}

pub proof fn lemma_rows_failed(sels: Seq<SelectImpl>, rows: Seq<Seq<(String, Value)>>, acc: Seq<Seq<EntityId>>, st: Picked, k: int)
    requires
        0 < k <= rows.len(),
        !rows_spec(sels, rows, acc, st, k).1.ok,
    ensures
        !rows_spec(sels, rows, acc, st, rows.len() as int).1.ok,
    decreases rows.len() - k,
{
    if k < rows.len() {
        lemma_rows_failed(sels, rows, acc, st, k + 1);
    }
}

pub proof fn lemma_row_failed(sels: Seq<SelectImpl>, row: Seq<(String, Value)>, acc: Seq<Seq<EntityId>>, st: Picked, n: int)
    requires
        0 < n <= sels.len(),
        !row_spec(sels, row, acc, st, n).1.ok,
    ensures
        !row_spec(sels, row, acc, st, sels.len() as int).1.ok,
    decreases sels.len() - n,
{
    if n < sels.len() {
        lemma_row_failed(sels, row, acc, st, n + 1);
    }
}

impl<'a> SelectImpl<'a> {
    /// This query and its joined queries (see `flat_selects`).
    pub fn flat_select(&self) -> (r: Vec<&SelectImpl<'a>>)
        ensures
            derefs(r@) == flat_selects(*self),
        decreases self,
    {
        let mut r: Vec<&SelectImpl<'a>> = Vec::new();
        r.push(self);
        assert(derefs(r@) =~= seq![*self] + join_flats(*self, 0));
        let mut k: usize = 0;
        while k < self.joins.len()
            invariant
                k <= self.joins@.len(),
                derefs(r@) == seq![*self] + join_flats(*self, k as int),
            decreases self.joins.len() - k,
        {
            proof {
                lemma_join_decreases(*self, k as int);
            }
            let mut sub = self.joins[k].select.flat_select();
            let ghost before = r@;
            let ghost added = sub@;
            r.append(&mut sub);
            assert(derefs(r@) =~= derefs(before) + derefs(added));
            k += 1;
        }
        r
    }

    /// Picks the entities of every row, one list per query of `flat_select`
    /// (before repeated entities are dropped).
    pub fn pick_rows(&self, rows: &Vec<Vec<(String, Value)>>, store: &mut EntityStore) -> (r: Result<Vec<Vec<EntityId>>, ()>)
        requires
            renderable(*self),
        ensures
            ({
                let sels = flat_selects(*self);
                let out = rows_spec(
                    sels,
                    row_views(rows@),
                    Seq::new(sels.len(), |i: int| Seq::<EntityId>::empty()),
                    Picked { map: Seq::empty(), store: old(store)@, ok: true },
                    rows@.len() as int,
                );
                match r {
                    Ok(lists) => out.1.ok && out.0 == nested_ids(lists@) && out.1.store == final(store)@,
                    Err(_) => !out.1.ok,
                }
            }),
            r matches Ok(lists) ==> forall|i: int, j: int|
                0 <= i < lists@.len() && 0 <= j < lists@[i]@.len() ==> #[trigger] lists@[i]@[j] < final(store)@.len(),
    {
        let sels = self.flat_select();
        let ghost ss = flat_selects(*self);
        proof {
            lemma_flat_renderable(*self);
        }
        assert(sels@.len() == ss.len());
        let mut acc: Vec<Vec<EntityId>> = Vec::new();
        let mut i: usize = 0;
        while i < sels.len()
            invariant
                i <= sels@.len(),
                sels@.len() == ss.len(),
                acc@.len() == i,
                forall|j: int| 0 <= j < i ==> (#[trigger] acc@[j])@.len() == 0,
            decreases sels.len() - i,
        {
            acc.push(Vec::new());
            i += 1;
        }
        let ghost acc0 = nested_ids(acc@);
        assert forall|j: int| 0 <= j < ss.len() implies acc0[j] =~= Seq::<EntityId>::empty() by {
            assert(acc@[j]@.len() == 0);
        }
        assert(acc0 =~= Seq::new(ss.len(), |i: int| Seq::<EntityId>::empty()));
        let ghost s0 = store@;
        let mut map: Vec<(String, EntityId)> = Vec::new();
        assert(key_views(map@) =~= Seq::<(Seq<char>, EntityId)>::empty());
        let ghost rs = row_views(rows@);
        let mut k: usize = 0;
        while k < rows.len()
            invariant
                k <= rows@.len(),
                rs == row_views(rows@),
                ss == flat_selects(*self),
                acc0 == Seq::new(ss.len(), |i: int| Seq::<EntityId>::empty()),
                s0 == old(store)@,
                derefs(sels@) == ss,
                forall|j: int| 0 <= j < ss.len() ==> #[trigger] renderable(ss[j]),
                acc@.len() == ss.len(),
                map_below(key_views(map@), store@.len() as int),
                forall|a: int, b: int|
                    0 <= a < acc@.len() && 0 <= b < acc@[a]@.len() ==> #[trigger] acc@[a]@[b] < store@.len(),
                rows_spec(ss, rs, acc0, Picked { map: Seq::empty(), store: s0, ok: true }, k as int) == (
                    nested_ids(acc@),
                    picking(map@, store@),
                ),
            decreases rows.len() - k,
        {
            let row = &rows[k];
            assert(rs[k as int] == row@);
            let ghost acc_k = nested_ids(acc@);
            let ghost st_k = picking(map@, store@);
            let mut n: usize = 0;
            while n < sels.len()
                invariant
                    n <= sels@.len(),
                    k < rows@.len(),
                    rs == row_views(rows@),
                    rs[k as int] == row@,
                    ss == flat_selects(*self),
                    acc0 == Seq::new(ss.len(), |i: int| Seq::<EntityId>::empty()),
                    s0 == old(store)@,
                    derefs(sels@) == ss,
                    forall|j: int| 0 <= j < ss.len() ==> #[trigger] renderable(ss[j]),
                    acc@.len() == ss.len(),
                    map_below(key_views(map@), store@.len() as int),
                    forall|a: int, b: int|
                        0 <= a < acc@.len() && 0 <= b < acc@[a]@.len() ==> #[trigger] acc@[a]@[b] < store@.len(),
                    rows_spec(ss, rs, acc0, Picked { map: Seq::empty(), store: s0, ok: true }, k as int) == (
                        acc_k,
                        st_k,
                    ),
                    st_k.ok,
                    row_spec(ss, row@, acc_k, st_k, n as int) == (nested_ids(acc@), picking(map@, store@)),
                decreases sels.len() - n,
            {
                let sel = sels[n];
                assert(ss[n as int] == *sel);
                let ghost len0 = store@.len();
                let picked = sel.pick_inner(row, &mut map, store);
                match picked {
                    Err(_) => {
                        proof {
                            lemma_row_failed(ss, row@, acc_k, st_k, n as int + 1);
                            lemma_rows_failed(ss, rs, acc0, Picked { map: Seq::empty(), store: s0, ok: true }, k as int + 1);
                        }
                        return Err(());
                    },
                    Ok(None) => {},
                    Ok(Some(y)) => {
                        let ghost before = acc@;
                        let mut list = acc[n].clone();
                        list.push(y);
                        acc.set(n, list);
                        assert(nested_ids(acc@) =~= nested_ids(before).update(
                            n as int,
                            nested_ids(before)[n as int].push(y),
                        ));
                    },
                }
                n += 1;
            }
            assert(row_spec(ss, row@, acc_k, st_k, ss.len() as int) == rows_spec(
                ss,
                rs,
                acc0,
                Picked { map: Seq::empty(), store: s0, ok: true },
                k as int + 1,
            ));
            k += 1;
        }
        Ok(acc)
    }
}

// ---------------------------------------------------------------------------
// Dropping repeated entities.

/// The key of the entity `x` of the store.
pub open spec fn key_of(s: Seq<EntityInnerView>, x: EntityId) -> u64 {
    id_of(s[x as int])->Some_0
}

/// Every entity of `items` is in the store and has a key.
pub open spec fn keyed(s: Seq<EntityInnerView>, items: Seq<EntityId>) -> bool {
    forall|j: int| 0 <= j < items.len() ==> #[trigger] items[j] < s.len() && id_of(s[items[j] as int]) is Some
}

/// The keys of the entities of `items`.
pub open spec fn keys_in(s: Seq<EntityInnerView>, items: Seq<EntityId>) -> Seq<u64> {
    items.map_values(|x: EntityId| key_of(s, x))
}

/// The entities of `items` with each one dropped whose key an earlier one has.
pub open spec fn first_by_key(s: Seq<EntityInnerView>, items: Seq<EntityId>) -> Seq<EntityId>
    decreases items.len(),
{
    if items.len() == 0 {
        Seq::empty()
    } else {
        let prev = first_by_key(s, items.drop_last());
        if keys_in(s, items.drop_last()).contains(key_of(s, items.last())) {
            prev
        } else {
            prev.push(items.last())
        }
    }
}

/// The names of the one-to-many fields of a type, in declaration order.
pub open spec fn one_many_names(m: EntityMetaView) -> Seq<Seq<char>> {
    crate::meta::select_fields(m.fields(), crate::meta::FieldSel::Kind(ReferKind::OneToMany)).map_values(
        |f: FieldMetaView| f.field_name(),
    )
}

/// Going through the first `n` entities of `d`, `fuel` levels down: the store
/// after, and whether nothing stood in the way.
pub open spec fn visit_list(orm: OrmMetaView, s: Seq<EntityInnerView>, d: Seq<EntityId>, fuel: nat, n: int) -> (Seq<EntityInnerView>, bool)
    decreases fuel, 2int, n,
{
    if n <= 0 || n > d.len() {
        (s, true)
    } else {
        let (s1, ok) = visit_list(orm, s, d, fuel, n - 1);
        if !ok {
            (s1, false)
        } else {
            visit_entity(orm, s1, d[n - 1], fuel)
        }
    }
}

/// Going through the one-to-many fields of the entity `x`.
pub open spec fn visit_entity(orm: OrmMetaView, s: Seq<EntityInnerView>, x: EntityId, fuel: nat) -> (Seq<EntityInnerView>, bool)
    decreases fuel, 1int, 0int,
{
    if x >= s.len() {
        (s, false)
    } else {
        match orm.entity(s[x as int].entity) {
            None => (s, false),
            Some(m) => if !m.fields_known() {
                (s, false)
            } else {
                visit_fields(orm, s, x, one_many_names(m), fuel, one_many_names(m).len() as int)
            },
        }
    }
}

/// Going through the first `k` of the one-to-many fields `names` of `x`: the
/// list each holds loses its repeated entities, and its entities are gone
/// through one level further down.
pub open spec fn visit_fields(
    orm: OrmMetaView,
    s: Seq<EntityInnerView>,
    x: EntityId,
    names: Seq<Seq<char>>,
    fuel: nat,
    k: int,
) -> (Seq<EntityInnerView>, bool)
    decreases fuel, 0int, k,
{
    if k <= 0 || k > names.len() || x >= s.len() {
        (s, true)
    } else {
        let (s1, ok) = visit_fields(orm, s, x, names, fuel, k - 1);
        if !ok || x >= s1.len() {
            (s1, false)
        } else {
            match s1[x as int].get(names[k - 1]) {
                None => (s1, true),
                Some(FieldValueView::Vec(v)) => if fuel == 0 {
                    (s1, true)
                } else if !keyed(s1, v) {
                    (s1, false)
                } else {
                    let d = first_by_key(s1, v);
                    let s2 = store_set(s1, x as int, names[k - 1], FieldValueView::Vec(d));
                    visit_list(orm, s2, d, (fuel - 1) as nat, d.len() as int)
                },
                Some(_) => (s1, false),
            }
        }
    }
}

/// A list of picked entities without repeats, its entities gone through
/// `fuel` levels down: the list, the store after, and whether nothing stood
/// in the way.
pub open spec fn dedup_spec(orm: OrmMetaView, s: Seq<EntityInnerView>, items: Seq<EntityId>, fuel: nat) -> (Seq<EntityId>, Seq<EntityInnerView>, bool) {
    if !keyed(s, items) {
        (items, s, false)
    } else {
        let d = first_by_key(s, items);
        let (s2, ok) = visit_list(orm, s, d, fuel, d.len() as int);
        (d, s2, ok)
    }
}

/// Whether every entity of `items` is in the store and has a key.
fn all_keyed(store: &EntityStore, items: &Vec<EntityId>) -> (r: bool)
    ensures
        r == keyed(store@, items@),
{
    let mut j: usize = 0;
    while j < items.len()
        invariant
            j <= items@.len(),
            forall|k: int| 0 <= k < j ==> #[trigger] items@[k] < store@.len() && id_of(store@[items@[k] as int]) is Some,
        decreases items.len() - j,
    {
        let x = items[j];
        if x >= store.len() || store.get(x).get_id_u64().is_none() {
            assert(!(items@[j as int] < store@.len() && id_of(store@[items@[j as int] as int]) is Some));
            return false;
        }
        j += 1;
    }
    true
}

/// The entities of `items` with the repeated ones dropped (see `first_by_key`).
fn first_by_key_of(store: &EntityStore, items: &Vec<EntityId>) -> (r: Vec<EntityId>)
    requires
        keyed(store@, items@),
    ensures
        r@ == first_by_key(store@, items@),
{
    let ghost s = store@;
    let mut seen: Vec<u64> = Vec::new();
    let mut r: Vec<EntityId> = Vec::new();
    let mut j: usize = 0;
    while j < items.len()
        invariant
            j <= items@.len(),
            s == store@,
            keyed(s, items@),
            seen@ == keys_in(s, items@.take(j as int)),
            r@ == first_by_key(s, items@.take(j as int)),
        decreases items.len() - j,
    {
        let x = items[j];
        assert(x < s.len() && id_of(s[x as int]) is Some);
        let key = match store.get(x).get_id_u64() {
            Some(k) => k,
            None => vstd::pervasive::unreached(),
        };
        let mut found = false;
        let mut t: usize = 0;
        while t < seen.len()
            invariant
                t <= seen@.len(),
                found <==> exists|u: int| 0 <= u < t && seen@[u] == key,
            decreases seen.len() - t,
        {
            if seen[t] == key {
                found = true;
            }
            t += 1;
        }
        assert(items@.take(j as int + 1).drop_last() =~= items@.take(j as int));
        assert(items@.take(j as int + 1).last() == x);
        assert(found == keys_in(s, items@.take(j as int)).contains(key));
        if !found {
            r.push(x);
        }
        seen.push(key);
        assert(seen@ =~= keys_in(s, items@.take(j as int + 1)));
        j += 1;
    }
    assert(items@.take(items@.len() as int) =~= items@);
    r
}

/// Goes through the entities of `d` (see `visit_list`); `Err` where something
/// stood in the way.
fn visit_list_exec(orm: &OrmMeta, store: &mut EntityStore, d: &Vec<EntityId>, fuel: usize) -> (r: Result<(), ()>)
    ensures
        ({
            let out = visit_list(orm@, old(store)@, d@, fuel as nat, d@.len() as int);
            &&& r is Ok <==> out.1
            &&& r is Ok ==> final(store)@ == out.0
        }),
        final(store)@.len() == old(store)@.len(),
    decreases fuel, 1int,
{
    let ghost s0 = store@;
    let mut n: usize = 0;
    while n < d.len()
        invariant
            n <= d@.len(),
            visit_list(orm@, s0, d@, fuel as nat, n as int) == (store@, true),
            store@.len() == s0.len(),
            s0 == old(store)@,
        decreases d.len() - n,
    {
        match visit_entity_exec(orm, store, d[n], fuel) {
            Ok(()) => {},
            Err(()) => {
                proof {
                    lemma_visit_list_failed(orm@, s0, d@, fuel as nat, n as int + 1);
                }
                return Err(());
            },
        }
        n += 1;
    }
    Ok(())
}

pub proof fn lemma_visit_list_failed(orm: OrmMetaView, s: Seq<EntityInnerView>, d: Seq<EntityId>, fuel: nat, n: int)
    requires
        0 < n <= d.len(),
        !visit_list(orm, s, d, fuel, n).1,
    ensures
        !visit_list(orm, s, d, fuel, d.len() as int).1,
    decreases d.len() - n,
{
    if n < d.len() {
        lemma_visit_list_failed(orm, s, d, fuel, n + 1);
    }
}

pub proof fn lemma_visit_fields_failed(
    orm: OrmMetaView,
    s: Seq<EntityInnerView>,
    x: EntityId,
    names: Seq<Seq<char>>,
    fuel: nat,
    k: int,
)
    requires
        0 < k <= names.len(),
        x < s.len(),
        !visit_fields(orm, s, x, names, fuel, k).1,
    ensures
        !visit_fields(orm, s, x, names, fuel, names.len() as int).1,
    decreases names.len() - k,
{
    if k < names.len() {
        lemma_visit_fields_failed(orm, s, x, names, fuel, k + 1);
    }
}

/// Goes through the one-to-many fields of the entity `x` (see `visit_entity`).
fn visit_entity_exec(orm: &OrmMeta, store: &mut EntityStore, x: EntityId, fuel: usize) -> (r: Result<(), ()>)
    ensures
        ({
            let out = visit_entity(orm@, old(store)@, x, fuel as nat);
            &&& r is Ok <==> out.1
            &&& r is Ok ==> final(store)@ == out.0
        }),
        final(store)@.len() == old(store)@.len(),
    decreases fuel, 0int,
{
    if x >= store.len() {
        return Err(());
    }
    let meta = match orm.get_entity(store.get(x).entity.as_str()) {
        Some(m) => m,
        None => {
            return Err(());
        },
    };
    if !meta.fields_known_checked() {
        return Err(());
    }
    let fields = meta.get_one_many_fields();
    let ghost names = one_many_names(meta@);
    let ghost s0 = store@;
    assert(crate::meta::ref_views(fields@).map_values(|f: FieldMetaView| f.field_name()) == names);
    let mut k: usize = 0;
    while k < fields.len()
        invariant
            k <= fields@.len(),
            x < s0.len(),
            crate::meta::ref_views(fields@).map_values(|f: FieldMetaView| f.field_name()) == names,
            visit_fields(orm@, s0, x, names, fuel as nat, k as int) == (store@, true),
            store@.len() == s0.len(),
            s0 == old(store)@,
            names == one_many_names(meta@),
            orm@.entity(s0[x as int].entity) == Some(meta@),
            meta@.fields_known(),
        decreases fields.len() - k,
    {
        let name = fields[k].get_field_name();
        assert(names[k as int] == name@);
        let held = match store.get(x).get(name.as_str()) {
            None => None,
            Some(FieldValue::Vec(v)) => Some(v.clone()),
            Some(_) => {
                proof {
                    lemma_visit_fields_failed(orm@, s0, x, names, fuel as nat, k as int + 1);
                }
                return Err(());
            },
        };
        match held {
            None => {},
            Some(v) => {
                if fuel > 0 {
                    if !all_keyed(store, &v) {
                        proof {
                            lemma_visit_fields_failed(orm@, s0, x, names, fuel as nat, k as int + 1);
                        }
                        return Err(());
                    }
                    let d = first_by_key_of(store, &v);
                    store.set_field(x, name.as_str(), FieldValue::Vec(d.clone()));
                    match visit_list_exec(orm, store, &d, fuel - 1) {
                        Ok(()) => {},
                        Err(()) => {
                            proof {
                                lemma_visit_fields_failed(orm@, s0, x, names, fuel as nat, k as int + 1);
                            }
                            return Err(());
                        },
                    }
                }
            },
        }
        k += 1;
    }
    Ok(())
}

/// Drops the repeated entities of `items` and goes through the rest `fuel`
/// levels down (see `dedup_spec`); `false` where something stood in the way.
pub fn dup_filter(orm: &OrmMeta, store: &mut EntityStore, items: &mut Vec<EntityId>, fuel: usize) -> (r: bool)
    ensures
        ({
            let out = dedup_spec(orm@, old(store)@, old(items)@, fuel as nat);
            &&& r == out.2
            &&& r ==> final(items)@ == out.0 && final(store)@ == out.1
        }),
{
    if !all_keyed(store, items) {
        return false;
    }
    let d = first_by_key_of(store, items);
    *items = d;
    match visit_list_exec(orm, store, items, fuel) {
        Ok(()) => true,
        Err(()) => false,
    }
}

/// The lists without repeats, one after the other, over a shared store.
pub open spec fn dedup_lists(orm: OrmMetaView, s: Seq<EntityInnerView>, lists: Seq<Seq<EntityId>>, fuel: nat, n: int) -> (Seq<Seq<EntityId>>, Seq<EntityInnerView>, bool)
    decreases n,
{
    if n <= 0 || n > lists.len() {
        (Seq::empty(), s, true)
    } else {
        let (ls, s1, ok) = dedup_lists(orm, s, lists, fuel, n - 1);
        if !ok {
            (ls, s1, false)
        } else {
            let (d, s2, ok2) = dedup_spec(orm, s1, lists[n - 1], fuel);
            (ls.push(d), s2, ok2)
        }
    }
}

pub proof fn lemma_dedup_lists_failed(orm: OrmMetaView, s: Seq<EntityInnerView>, lists: Seq<Seq<EntityId>>, fuel: nat, n: int)
    requires
        0 < n <= lists.len(),
        !dedup_lists(orm, s, lists, fuel, n).2,
    ensures
        !dedup_lists(orm, s, lists, fuel, lists.len() as int).2,
    decreases lists.len() - n,
{
    if n < lists.len() {
        lemma_dedup_lists_failed(orm, s, lists, fuel, n + 1);
    }
}

/// The entities that the rows of a query give, one list per query of
/// `flat_selects`, each without repeats, and the store holding them; `None`
/// where an entity's fields hold something else than the query reads.
/// Repeats are dropped down as many levels as the store has entities, which
/// no chain of distinct entities exceeds.
pub open spec fn from_rows_spec(
    sel: SelectImpl,
    rows: Seq<Seq<(String, Value)>>,
    s0: Seq<EntityInnerView>,
) -> Option<(Seq<Seq<EntityId>>, Seq<EntityInnerView>)> {
    let sels = flat_selects(sel);
    let (acc, st) = rows_spec(
        sels,
        rows,
        Seq::new(sels.len(), |i: int| Seq::<EntityId>::empty()),
        Picked { map: Seq::empty(), store: s0, ok: true },
        rows.len() as int,
    );
    if !st.ok {
        None
    } else {
        let (ls, s, ok) = dedup_lists(sel.orm_meta@, st.store, acc, st.store.len(), acc.len() as int);
        if ok {
            Some((ls, s))
        } else {
            None
        }
    }
}

impl<'a> SelectImpl<'a> {
    /// The entities that the rows of this query give (see `from_rows_spec`).
    pub fn from_rows(&self, rows: &Vec<Vec<(String, Value)>>, store: &mut EntityStore) -> (r: Result<Vec<Vec<EntityId>>, ()>)
        requires
            renderable(*self),
        ensures
            match from_rows_spec(*self, row_views(rows@), old(store)@) {
                Some((ls, s)) => r matches Ok(v) && nested_ids(v@) == ls && final(store)@ == s,
                None => r is Err,
            },
    {
        let lists = match self.pick_rows(rows, store) {
            Ok(lists) => lists,
            Err(()) => {
                return Err(());
            },
        };
        let ghost acc = nested_ids(lists@);
        let ghost s1 = store@;
        let fuel = store.len();
        let ghost full = dedup_lists(self.orm_meta@, s1, acc, fuel as nat, acc.len() as int);
        assert(from_rows_spec(*self, row_views(rows@), old(store)@) == if full.2 {
            Some((full.0, full.1))
        } else {
            None::<(Seq<Seq<EntityId>>, Seq<EntityInnerView>)>
        });
        let mut out: Vec<Vec<EntityId>> = Vec::new();
        let mut i: usize = 0;
        assert(nested_ids(out@) =~= dedup_lists(self.orm_meta@, s1, acc, fuel as nat, 0).0);
        while i < lists.len()
            invariant
                i <= lists@.len(),
                acc == nested_ids(lists@),
                fuel == s1.len(),
                full == dedup_lists(self.orm_meta@, s1, acc, fuel as nat, acc.len() as int),
                from_rows_spec(*self, row_views(rows@), old(store)@) == if full.2 {
                    Some((full.0, full.1))
                } else {
                    None::<(Seq<Seq<EntityId>>, Seq<EntityInnerView>)>
                },
                dedup_lists(self.orm_meta@, s1, acc, fuel as nat, i as int) == (nested_ids(out@), store@, true),
            decreases lists.len() - i,
        {
            let mut items = lists[i].clone();
            assert(items@ == acc[i as int]);
            let ghost before = nested_ids(out@);
            if !dup_filter(self.orm_meta, store, &mut items, fuel) {
                proof {
                    lemma_dedup_lists_failed(self.orm_meta@, s1, acc, fuel as nat, i as int + 1);
                }
                return Err(());
            }
            out.push(items);
            assert(nested_ids(out@) =~= before.push(items@));
            i += 1;
        }
        Ok(out)
    }
}

} // verus!
