//! The named parameters that a statement's text refers to: each `:` starts
//! one, whose name runs up to the next blank or `:`.
use vstd::prelude::*;

use crate::cond::{cond_sql, items_params, join_cond_sql, param_name, ItemView};
use crate::select::{
    columns_of, conds_of, full_conds, full_tables, join_columns, join_conds, join_on_params, join_params, join_table,
    join_tables, lemma_join_decreases, lemma_with_decreases, params_of, self_columns, sql_of, tables_of, width,
    with_columns, with_conds, with_params, with_table, with_tables, JoinKind, SelectImpl,
};
use crate::text::join_spec;
use crate::value::Value;

verus! {

/// A character that ends a parameter name.
pub open spec fn stop_char(c: char) -> bool {
    c == ' ' || c == '\n' || c == '\t' || c == ':'
}

/// The text holds no `:`.
pub open spec fn no_colon(t: Seq<char>) -> bool {
    forall|k: int| 0 <= k < t.len() ==> t[k] != ':'
}

/// The text can stand in a parameter name: it holds no blank and no `:`.
pub open spec fn name_like(t: Seq<char>) -> bool {
    forall|k: int| 0 <= k < t.len() ==> !stop_char(t[k])
}

/// Where the name that starts at `i` ends.
pub open spec fn run_end(t: Seq<char>, i: int) -> int
    decreases t.len() - i,
{
    if i >= t.len() {
        t.len() as int
    } else if stop_char(t[i]) {
        i
    } else {
        run_end(t, i + 1)
    }
}

/// The parameter names of the text from position `i` on, in order.
pub open spec fn holes_from(t: Seq<char>, i: int) -> Seq<Seq<char>>
    decreases t.len() - i,
{
    if i >= t.len() {
        Seq::empty()
    } else if t[i] == ':' {
        seq![t.subrange(i + 1, run_end(t, i + 1))] + holes_from(t, i + 1)
    } else {
        holes_from(t, i + 1)
    }
}

/// The parameter names of the text, in order.
pub open spec fn holes(t: Seq<char>) -> Seq<Seq<char>> {
    holes_from(t, 0)
}

/// The parameter names of several texts, one after the other.
pub open spec fn all_holes(ts: Seq<Seq<char>>) -> Seq<Seq<char>>
    decreases ts.len(),
{
    if ts.len() == 0 {
        Seq::empty()
    } else {
        all_holes(ts.drop_last()) + holes(ts.last())
    }
}

pub proof fn lemma_run_end_bounds(t: Seq<char>, i: int)
    requires
        0 <= i <= t.len(),
    ensures
        i <= run_end(t, i) <= t.len(),
    decreases t.len() - i,
{
    if i < t.len() && !stop_char(t[i]) {
        lemma_run_end_bounds(t, i + 1);
    }
}

/// Past the text `a`, the names of `a + b` are those of `b`.
proof fn lemma_shift(a: Seq<char>, b: Seq<char>, i: int)
    requires
        0 <= i,
    ensures
        run_end(a + b, a.len() + i) == a.len() + run_end(b, i),
        holes_from(a + b, a.len() + i) == holes_from(b, i),
    decreases b.len() - i,
{
    if i < b.len() {
        lemma_shift(a, b, i + 1);
        assert((a + b)[a.len() + i] == b[i]);
        if b[i] == ':' {
            lemma_run_end_bounds(b, i + 1);
            assert((a + b).subrange(a.len() + i + 1, a.len() + run_end(b, i + 1)) =~= b.subrange(
                i + 1,
                run_end(b, i + 1),
            ));
        }
    }
}

/// Where `b` starts with a blank or a `:`, the names of `a` end within `a`.
proof fn lemma_prefix(a: Seq<char>, b: Seq<char>, i: int)
    requires
        0 <= i <= a.len(),
        b.len() == 0 || stop_char(b[0]),
    ensures
        run_end(a + b, i) == run_end(a, i),
        holes_from(a + b, i) == holes_from(a, i) + holes(b),
    decreases a.len() - i,
{
    if i == a.len() {
        lemma_shift(a, b, 0);
        if b.len() > 0 {
            assert((a + b)[a.len() as int] == b[0]);
        }
        assert(holes_from(a, i) + holes(b) =~= holes(b));
    } else {
        lemma_prefix(a, b, i + 1);
        assert((a + b)[i] == a[i]);
        if a[i] == ':' {
            lemma_run_end_bounds(a, i + 1);
            let nm = a.subrange(i + 1, run_end(a, i + 1));
            assert((a + b).subrange(i + 1, run_end(a, i + 1)) =~= nm);
            assert(seq![nm] + (holes_from(a, i + 1) + holes(b)) =~= (seq![nm] + holes_from(a, i + 1)) + holes(b));
        }
    }
}

/// The names of `a + b`, where `b` starts with a blank or a `:`, are those of
/// `a`, then those of `b`.
pub proof fn lemma_holes_concat(a: Seq<char>, b: Seq<char>)
    requires
        b.len() == 0 || stop_char(b[0]),
    ensures
        holes(a + b) == holes(a) + holes(b),
{
    lemma_prefix(a, b, 0);
}

proof fn lemma_skip(a: Seq<char>, b: Seq<char>, i: int)
    requires
        0 <= i <= a.len(),
        forall|k: int| i <= k < a.len() ==> a[k] != ':',
    ensures
        holes_from(a + b, i) == holes(b),
    decreases a.len() - i,
{
    if i == a.len() {
        lemma_shift(a, b, 0);
    } else {
        lemma_skip(a, b, i + 1);
        assert((a + b)[i] == a[i]);
    }
}

/// A text without `:` in front adds no names.
pub proof fn lemma_holes_after_plain(a: Seq<char>, b: Seq<char>)
    requires
        no_colon(a),
    ensures
        holes(a + b) == holes(b),
{
    lemma_skip(a, b, 0);
}

/// A text without `:` has no names.
pub proof fn lemma_holes_plain(t: Seq<char>)
    requires
        no_colon(t),
    ensures
        holes(t) == Seq::<Seq<char>>::empty(),
{
    lemma_holes_after_plain(t, Seq::empty());
    assert(t + Seq::<char>::empty() =~= t);
}

proof fn lemma_name_tail(t: Seq<char>, i: int)
    requires
        0 <= i <= t.len(),
        forall|k: int| i <= k < t.len() ==> !stop_char(t[k]),
    ensures
        run_end(t, i) == t.len(),
        holes_from(t, i) == Seq::<Seq<char>>::empty(),
    decreases t.len() - i,
{
    if i < t.len() {
        lemma_name_tail(t, i + 1);
    }
}

/// A text that ends in `:` and a name has that one name.
pub proof fn lemma_hole(p: Seq<char>, nm: Seq<char>)
    requires
        no_colon(p),
        name_like(nm),
    ensures
        holes(p + ":"@ + nm) == seq![nm],
{
    reveal_strlit(":");
    let t2 = ":"@ + nm;
    assert(p + ":"@ + nm =~= p + t2);
    lemma_holes_after_plain(p, t2);
    lemma_name_tail(t2, 1);
    assert(t2.subrange(1, t2.len() as int) =~= nm);
    assert(seq![nm] + Seq::<Seq<char>>::empty() =~= seq![nm]);
}

pub proof fn lemma_no_colon_cat(a: Seq<char>, b: Seq<char>)
    requires
        no_colon(a),
        no_colon(b),
    ensures
        no_colon(a + b),
{
    assert forall|k: int| 0 <= k < (a + b).len() implies (a + b)[k] != ':' by {
        if k < a.len() {
            assert((a + b)[k] == a[k]);
        } else {
            assert((a + b)[k] == b[k - a.len()]);
        }
    }
}

pub proof fn lemma_name_like_cat(a: Seq<char>, b: Seq<char>)
    requires
        name_like(a),
        name_like(b),
    ensures
        name_like(a + b),
{
    assert forall|k: int| 0 <= k < (a + b).len() implies !stop_char((a + b)[k]) by {
        if k < a.len() {
            assert((a + b)[k] == a[k]);
        } else {
            assert((a + b)[k] == b[k - a.len()]);
        }
    }
}

/// A name-like text holds no `:`.
pub proof fn lemma_name_like_plain(t: Seq<char>)
    requires
        name_like(t),
    ensures
        no_colon(t),
{
    assert forall|k: int| 0 <= k < t.len() implies t[k] != ':' by {
        assert(!stop_char(t[k]));
    }
}

/// Texts joined by a separator that starts with a blank and holds no `:`
/// have the names of the texts, one after the other.
pub proof fn lemma_holes_join(parts: Seq<Seq<char>>, sep: Seq<char>)
    requires
        sep.len() > 0,
        stop_char(sep[0]),
        no_colon(sep),
    ensures
        holes(join_spec(parts, sep)) == all_holes(parts),
    decreases parts.len(),
{
    if parts.len() == 0 {
        assert(holes(Seq::<char>::empty()) =~= Seq::<Seq<char>>::empty());
    } else if parts.len() == 1 {
        assert(all_holes(parts.drop_last()) == Seq::<Seq<char>>::empty());
        assert(all_holes(parts) =~= holes(parts[0]));
    } else {
        let p = parts.drop_last();
        lemma_holes_join(p, sep);
        let j = join_spec(p, sep);
        let l = parts.last();
        assert(join_spec(parts, sep) == j + sep + l);
        assert(j + sep + l =~= j + (sep + l));
        assert((sep + l)[0] == sep[0]);
        lemma_holes_concat(j, sep + l);
        lemma_holes_after_plain(sep, l);
    }
}

/// Texts without `:` joined by a separator without `:` hold no `:`.
pub proof fn lemma_join_plain(parts: Seq<Seq<char>>, sep: Seq<char>)
    requires
        no_colon(sep),
        forall|k: int| 0 <= k < parts.len() ==> no_colon(#[trigger] parts[k]),
    ensures
        no_colon(join_spec(parts, sep)),
    decreases parts.len(),
{
    if parts.len() > 1 {
        let p = parts.drop_last();
        assert forall|k: int| 0 <= k < p.len() implies no_colon(#[trigger] p[k]) by {
            assert(p[k] == parts[k]);
        }
        lemma_join_plain(p, sep);
        lemma_no_colon_cat(join_spec(p, sep), sep);
        assert(no_colon(parts[parts.len() - 1]));
        lemma_no_colon_cat(join_spec(p, sep) + sep, parts.last());
    } else if parts.len() == 1 {
        assert(no_colon(parts[0]));
    } else {
        assert(no_colon(join_spec(parts, sep)));
    }
}

pub proof fn lemma_all_holes_concat(a: Seq<Seq<char>>, b: Seq<Seq<char>>)
    ensures
        all_holes(a + b) == all_holes(a) + all_holes(b),
    decreases b.len(),
{
    if b.len() == 0 {
        assert(a + b =~= a);
        assert(all_holes(a) + all_holes(b) =~= all_holes(a));
    } else {
        lemma_all_holes_concat(a, b.drop_last());
        assert((a + b).drop_last() =~= a + b.drop_last());
        assert((a + b).last() == b.last());
        assert(all_holes(a) + (all_holes(b.drop_last()) + holes(b.last())) =~= (all_holes(a) + all_holes(
            b.drop_last(),
        )) + holes(b.last()));
    }
}

pub proof fn lemma_all_holes_one(t: Seq<char>)
    ensures
        all_holes(seq![t]) == holes(t),
{
    assert(seq![t].drop_last() =~= Seq::<Seq<char>>::empty());
    assert(all_holes(Seq::<Seq<char>>::empty()) == Seq::<Seq<char>>::empty());
    assert(seq![t].last() == t);
    assert(Seq::<Seq<char>>::empty() + holes(t) =~= holes(t));
}

// ---------------------------------------------------------------------------
// Conditions.

/// The names of named parameters.
pub open spec fn param_names(ps: Seq<(Seq<char>, Value)>) -> Seq<Seq<char>> {
    ps.map_values(|p: (Seq<char>, Value)| p.0)
}

pub proof fn lemma_param_names_concat(a: Seq<(Seq<char>, Value)>, b: Seq<(Seq<char>, Value)>)
    ensures
        param_names(a + b) == param_names(a) + param_names(b),
{
    assert(param_names(a + b) =~= param_names(a) + param_names(b));
}

/// A comparison whose field can stand in a parameter name, or, for the
/// `NULL` tests, holds no `:`.
pub open spec fn item_ok(it: ItemView) -> bool {
    match it {
        ItemView::Id(_) => true,
        ItemView::Eq(f, _) => name_like(f),
        ItemView::Ne(f, _) => name_like(f),
        ItemView::Gt(f, _) => name_like(f),
        ItemView::Lt(f, _) => name_like(f),
        ItemView::Null(f) => no_colon(f),
        ItemView::NotNull(f) => no_colon(f),
    }
}

pub open spec fn items_ok(items: Seq<ItemView>) -> bool {
    forall|k: int| 0 <= k < items.len() ==> item_ok(#[trigger] items[k])
}

proof fn lemma_compare(alias: Seq<char>, f: Seq<char>, op: Seq<char>)
    requires
        name_like(alias),
        name_like(f),
        no_colon(op),
    ensures
        holes(alias + "."@ + f + op + ":"@ + param_name(alias, f)) == seq![param_name(alias, f)],
{
    reveal_strlit(".");
    reveal_strlit("_");
    lemma_name_like_plain(alias);
    lemma_name_like_plain(f);
    lemma_no_colon_cat(alias, "."@);
    lemma_no_colon_cat(alias + "."@, f);
    lemma_no_colon_cat(alias + "."@ + f, op);
    lemma_name_like_cat(alias, "_"@);
    lemma_name_like_cat(alias + "_"@, f);
    lemma_hole(alias + "."@ + f + op, param_name(alias, f));
}

/// The text of a comparison names exactly the parameters it binds.
proof fn lemma_item(it: ItemView, alias: Seq<char>)
    requires
        name_like(alias),
        item_ok(it),
    ensures
        holes(it.sql(alias)) == param_names(it.params(alias)),
{
    reveal_strlit(" = ");
    reveal_strlit(" <> ");
    reveal_strlit(" > ");
    reveal_strlit(" < ");
    reveal_strlit(".");
    reveal_strlit(" IS NULL");
    reveal_strlit(" IS NOT NULL");
    reveal_strlit("id");
    match it {
        ItemView::Id(v) => {
            assert(name_like("id"@));
            lemma_compare(alias, "id"@, " = "@);
            assert(param_names(seq![(param_name(alias, "id"@), v)]) =~= seq![param_name(alias, "id"@)]);
        },
        ItemView::Eq(f, v) => {
            lemma_compare(alias, f, " = "@);
            assert(param_names(seq![(param_name(alias, f), v)]) =~= seq![param_name(alias, f)]);
        },
        ItemView::Ne(f, v) => {
            lemma_compare(alias, f, " <> "@);
            assert(param_names(seq![(param_name(alias, f), v)]) =~= seq![param_name(alias, f)]);
        },
        ItemView::Gt(f, v) => {
            lemma_compare(alias, f, " > "@);
            assert(param_names(seq![(param_name(alias, f), v)]) =~= seq![param_name(alias, f)]);
        },
        ItemView::Lt(f, v) => {
            lemma_compare(alias, f, " < "@);
            assert(param_names(seq![(param_name(alias, f), v)]) =~= seq![param_name(alias, f)]);
        },
        ItemView::Null(f) => {
            lemma_name_like_plain(alias);
            lemma_no_colon_cat(alias, "."@);
            lemma_no_colon_cat(alias + "."@, f);
            lemma_no_colon_cat(alias + "."@ + f, " IS NULL"@);
            lemma_holes_plain(it.sql(alias));
            assert(param_names(it.params(alias)) =~= Seq::<Seq<char>>::empty());
        },
        ItemView::NotNull(f) => {
            lemma_name_like_plain(alias);
            lemma_no_colon_cat(alias, "."@);
            lemma_no_colon_cat(alias + "."@, f);
            lemma_no_colon_cat(alias + "."@ + f, " IS NOT NULL"@);
            lemma_holes_plain(it.sql(alias));
            assert(param_names(it.params(alias)) =~= Seq::<Seq<char>>::empty());
        },
    }
}

proof fn lemma_items(items: Seq<ItemView>, alias: Seq<char>)
    requires
        name_like(alias),
        items_ok(items),
    ensures
        all_holes(items.map_values(|i: ItemView| i.sql(alias))) == param_names(items_params(items, alias)),
    decreases items.len(),
{
    if items.len() == 0 {
        assert(param_names(items_params(items, alias)) =~= Seq::<Seq<char>>::empty());
    } else {
        let p = items.drop_last();
        assert forall|k: int| 0 <= k < p.len() implies item_ok(#[trigger] p[k]) by {
            assert(p[k] == items[k]);
        }
        lemma_items(p, alias);
        let m = items.map_values(|i: ItemView| i.sql(alias));
        assert(m.drop_last() =~= p.map_values(|i: ItemView| i.sql(alias)));
        assert(m.last() == items.last().sql(alias));
        assert(item_ok(items[items.len() - 1]));
        lemma_item(items.last(), alias);
        lemma_param_names_concat(items_params(p, alias), items.last().params(alias));
    }
}

/// The text of a condition names exactly its parameters, in order.
pub proof fn lemma_cond(items: Seq<ItemView>, alias: Seq<char>)
    requires
        name_like(alias),
        items_ok(items),
    ensures
        holes(cond_sql(items, alias)) == param_names(items_params(items, alias)),
{
    reveal_strlit(" AND ");
    lemma_holes_join(items.map_values(|i: ItemView| i.sql(alias)), " AND "@);
    lemma_items(items, alias);
}

// ---------------------------------------------------------------------------
// Queries.

/// The names that the query's own node writes into its text can neither end
/// a parameter name early nor start one: its alias can stand in a parameter
/// name, its table, selected columns, fetch clauses and join conditions hold
/// no `:`, and its conditions' fields are fit for them.
pub open spec fn node_ok(s: SelectImpl) -> bool {
    &&& name_like(s.alias@)
    &&& no_colon(s.meta@.table_name)
    &&& forall|k: int| 0 <= k < self_columns(s).len() ==> no_colon(#[trigger] self_columns(s)[k])
    &&& (s.cond matches Some(c) ==> items_ok(c@))
    &&& forall|i: int| 0 <= i < s.withs@.len() ==> no_colon(#[trigger] with_table(s, i))
    &&& forall|i: int|
        0 <= i < s.joins@.len() ==> no_colon(
            join_cond_sql((#[trigger] s.joins@[i]).join_cond@, s.alias@, s.joins@[i].select.alias@),
        ) && (s.joins@[i].on_cond matches Some(c) ==> items_ok(c@))
}

/// Every node of the query is fit (see `node_ok`).
pub open spec fn names_ok(s: SelectImpl) -> bool
    decreases s, width(s),
{
    &&& node_ok(s)
    &&& withs_names_ok(s, s.withs@.len() as int)
    &&& joins_names_ok(s, s.joins@.len() as int)
}

pub open spec fn withs_names_ok(s: SelectImpl, n: int) -> bool
    decreases s, n,
{
    if n <= 0 || n > s.withs@.len() {
        true
    } else {
        proof {
            lemma_with_decreases(s, n - 1);
        }
        withs_names_ok(s, n - 1) && names_ok(s.withs@[n - 1].1)
    }
}

pub open spec fn joins_names_ok(s: SelectImpl, n: int) -> bool
    decreases s, n,
{
    if n <= 0 || n > s.joins@.len() {
        true
    } else {
        proof {
            lemma_join_decreases(s, n - 1);
        }
        joins_names_ok(s, n - 1) && names_ok(s.joins@[n - 1].select)
    }
}

/// Every column of every group holds no `:`.
pub open spec fn groups_plain(gs: Seq<Seq<Seq<char>>>) -> bool {
    forall|g: int, k: int| 0 <= g < gs.len() && 0 <= k < gs[g].len() ==> no_colon(#[trigger] gs[g][k])
}

proof fn lemma_groups_plain_cat(a: Seq<Seq<Seq<char>>>, b: Seq<Seq<Seq<char>>>)
    requires
        groups_plain(a),
        groups_plain(b),
    ensures
        groups_plain(a + b),
{
    assert forall|g: int, k: int| 0 <= g < (a + b).len() && 0 <= k < (a + b)[g].len() implies no_colon(
        #[trigger] (a + b)[g][k],
    ) by {
        if g < a.len() {
            assert((a + b)[g] == a[g]);
        } else {
            assert((a + b)[g] == b[g - a.len()]);
        }
    }
}

proof fn lemma_columns_plain(s: SelectImpl)
    requires
        names_ok(s),
    ensures
        groups_plain(columns_of(s)),
    decreases s, width(s),
{
    lemma_with_columns_plain(s, s.withs@.len() as int);
    lemma_join_columns_plain(s, s.joins@.len() as int);
    let own = seq![self_columns(s)];
    assert(groups_plain(own)) by {
        assert forall|g: int, k: int| 0 <= g < own.len() && 0 <= k < own[g].len() implies no_colon(
            #[trigger] own[g][k],
        ) by {
            assert(own[g] == self_columns(s));
        }
    }
    lemma_groups_plain_cat(own, with_columns(s, s.withs@.len() as int));
    lemma_groups_plain_cat(own + with_columns(s, s.withs@.len() as int), join_columns(s, s.joins@.len() as int));
}

proof fn lemma_with_columns_plain(s: SelectImpl, n: int)
    requires
        withs_names_ok(s, n),
        0 <= n <= s.withs@.len(),
    ensures
        groups_plain(with_columns(s, n)),
    decreases s, n,
{
    if n > 0 {
        lemma_with_decreases(s, n - 1);
        lemma_with_columns_plain(s, n - 1);
        lemma_columns_plain(s.withs@[n - 1].1);
        lemma_groups_plain_cat(with_columns(s, n - 1), columns_of(s.withs@[n - 1].1));
    }
}

proof fn lemma_join_columns_plain(s: SelectImpl, n: int)
    requires
        joins_names_ok(s, n),
        0 <= n <= s.joins@.len(),
    ensures
        groups_plain(join_columns(s, n)),
    decreases s, n,
{
    if n > 0 {
        lemma_join_decreases(s, n - 1);
        lemma_join_columns_plain(s, n - 1);
        lemma_columns_plain(s.joins@[n - 1].select);
        lemma_groups_plain_cat(join_columns(s, n - 1), columns_of(s.joins@[n - 1].select));
    }
}

/// The names of the clause of the `i`-th join are the parameters of its `on` condition.
proof fn lemma_join_table(s: SelectImpl, i: int)
    requires
        node_ok(s),
        0 <= i < s.joins@.len(),
        node_ok(s.joins@[i].select),
    ensures
        holes(join_table(s, i)) == param_names(
            match s.joins@[i].on_cond {
                Some(c) => items_params(c@, s.joins@[i].select.alias@),
                None => Seq::empty(),
            },
        ),
{
    let j = s.joins@[i];
    let b_alias = j.select.alias@;
    reveal_strlit(" ");
    reveal_strlit(" AS ");
    reveal_strlit(" ON ");
    reveal_strlit(" AND ");
    reveal_strlit("");
    reveal_strlit("INNER JOIN");
    reveal_strlit("OUTER JOIN");
    reveal_strlit("LEFT JOIN");
    reveal_strlit("RIGHT JOIN");
    assert(no_colon(j.kind.sql()));
    let jcs = join_cond_sql(j.join_cond@, s.alias@, b_alias);
    assert(no_colon(jcs));
    lemma_name_like_plain(b_alias);
    let pre = j.kind.sql() + " "@ + j.select.meta@.table_name + " AS "@ + b_alias + " ON "@ + jcs;
    lemma_no_colon_cat(j.kind.sql(), " "@);
    lemma_no_colon_cat(j.kind.sql() + " "@, j.select.meta@.table_name);
    lemma_no_colon_cat(j.kind.sql() + " "@ + j.select.meta@.table_name, " AS "@);
    lemma_no_colon_cat(j.kind.sql() + " "@ + j.select.meta@.table_name + " AS "@, b_alias);
    lemma_no_colon_cat(j.kind.sql() + " "@ + j.select.meta@.table_name + " AS "@ + b_alias, " ON "@);
    lemma_no_colon_cat(j.kind.sql() + " "@ + j.select.meta@.table_name + " AS "@ + b_alias + " ON "@, jcs);
    match j.on_cond {
        Some(c) => {
            let cs = cond_sql(c@, b_alias);
            assert(join_table(s, i) == pre + (" AND "@ + cs));
            lemma_holes_after_plain(pre, " AND "@ + cs);
            lemma_holes_after_plain(" AND "@, cs);
            lemma_cond(c@, b_alias);
        },
        None => {
            assert(join_table(s, i) =~= pre);
            lemma_holes_plain(pre);
            assert(param_names(Seq::empty()) =~= Seq::<Seq<char>>::empty());
        },
    }
}

/// Counted as multisets, the parameters of a query are the names in its
/// joined tables and in its conditions.
pub proof fn lemma_params_holes(s: SelectImpl)
    requires
        names_ok(s),
    ensures
        param_names(params_of(s)).to_multiset() == (all_holes(tables_of(s)) + all_holes(conds_of(s))).to_multiset(),
    decreases s, width(s),
{
    broadcast use vstd::seq_lib::lemma_multiset_commutative;
    broadcast use vstd::multiset::group_multiset_axioms;

    let nw = s.withs@.len() as int;
    let nj = s.joins@.len() as int;
    lemma_with_params_holes(s, nw);
    lemma_join_params_holes(s, nj);
    let own = match s.cond {
        Some(c) => items_params(c@, s.alias@),
        None => Seq::empty(),
    };
    let own_c = match s.cond {
        Some(c) => seq![cond_sql(c@, s.alias@)],
        None => Seq::empty(),
    };
    match s.cond {
        Some(c) => {
            lemma_all_holes_one(cond_sql(c@, s.alias@));
            lemma_cond(c@, s.alias@);
        },
        None => {
            assert(param_names(own) =~= Seq::<Seq<char>>::empty());
            assert(all_holes(own_c) == Seq::<Seq<char>>::empty());
        },
    }
    assert(all_holes(own_c) == param_names(own));
    let wp = with_params(s, nw);
    let jo = join_on_params(s, nj);
    let jp = join_params(s, nj);
    assert(params_of(s) == own + wp + jo + jp);
    lemma_param_names_concat(own, wp);
    lemma_param_names_concat(own + wp, jo);
    lemma_param_names_concat(own + wp + jo, jp);
    lemma_param_names_concat(jo, jp);
    let wt = with_tables(s, nw);
    let jt = join_tables(s, nj);
    let wc = with_conds(s, nw);
    let jc = join_conds(s, nj);
    assert(tables_of(s) == wt + jt);
    assert(conds_of(s) == own_c + wc + jc);
    lemma_all_holes_concat(wt, jt);
    lemma_all_holes_concat(own_c, wc);
    lemma_all_holes_concat(own_c + wc, jc);
    let a = param_names(own).to_multiset();
    let b = param_names(wp).to_multiset();
    let c2 = param_names(jo + jp).to_multiset();
    assert(param_names(params_of(s)) == param_names(own) + param_names(wp) + (param_names(jo) + param_names(jp)))
        by {
        assert(param_names(own) + param_names(wp) + param_names(jo) + param_names(jp) =~= param_names(own)
            + param_names(wp) + (param_names(jo) + param_names(jp)));
    }
    assert(param_names(params_of(s)).to_multiset() =~= a.add(b).add(c2));
    assert((all_holes(tables_of(s)) + all_holes(conds_of(s))).to_multiset() =~= all_holes(wt).to_multiset().add(
        all_holes(jt).to_multiset(),
    ).add(all_holes(own_c).to_multiset()).add(all_holes(wc).to_multiset()).add(all_holes(jc).to_multiset()));
}

proof fn lemma_with_params_holes(s: SelectImpl, n: int)
    requires
        node_ok(s),
        withs_names_ok(s, n),
        0 <= n <= s.withs@.len(),
    ensures
        param_names(with_params(s, n)).to_multiset() == all_holes(with_tables(s, n)).to_multiset().add(
            all_holes(with_conds(s, n)).to_multiset(),
        ),
    decreases s, n,
{
    broadcast use vstd::seq_lib::lemma_multiset_commutative;
    broadcast use vstd::multiset::group_multiset_axioms;

    if n == 0 {
        assert(param_names(with_params(s, n)) =~= Seq::<Seq<char>>::empty());
        assert(all_holes(with_tables(s, n)) == Seq::<Seq<char>>::empty());
        assert(all_holes(with_conds(s, n)) == Seq::<Seq<char>>::empty());
        assert(Seq::<Seq<char>>::empty().to_multiset() =~= Seq::<Seq<char>>::empty().to_multiset().add(
            Seq::<Seq<char>>::empty().to_multiset(),
        )) by {
            vstd::seq_lib::lemma_multiset_commutative(Seq::<Seq<char>>::empty(), Seq::<Seq<char>>::empty());
            assert(Seq::<Seq<char>>::empty() + Seq::<Seq<char>>::empty() =~= Seq::<Seq<char>>::empty());
        }
    } else {
        lemma_with_decreases(s, n - 1);
        let w = s.withs@[n - 1].1;
        lemma_with_params_holes(s, n - 1);
        lemma_params_holes(w);
        assert(no_colon(with_table(s, n - 1)));
        lemma_holes_plain(with_table(s, n - 1));
        lemma_all_holes_one(with_table(s, n - 1));
        let wt0 = with_tables(s, n - 1);
        let wc0 = with_conds(s, n - 1);
        assert(with_params(s, n) == with_params(s, n - 1) + params_of(w));
        lemma_param_names_concat(with_params(s, n - 1), params_of(w));
        assert(with_tables(s, n) == wt0 + seq![with_table(s, n - 1)] + tables_of(w));
        lemma_all_holes_concat(wt0, seq![with_table(s, n - 1)]);
        lemma_all_holes_concat(wt0 + seq![with_table(s, n - 1)], tables_of(w));
        assert(with_conds(s, n) == wc0 + conds_of(w));
        lemma_all_holes_concat(wc0, conds_of(w));
        assert(all_holes(wt0) + Seq::<Seq<char>>::empty() =~= all_holes(wt0));
        assert(param_names(with_params(s, n)).to_multiset() =~= all_holes(with_tables(s, n)).to_multiset().add(
            all_holes(with_conds(s, n)).to_multiset(),
        ));
    }
}

proof fn lemma_join_params_holes(s: SelectImpl, n: int)
    requires
        node_ok(s),
        joins_names_ok(s, n),
        0 <= n <= s.joins@.len(),
    ensures
        param_names(join_on_params(s, n) + join_params(s, n)).to_multiset() == all_holes(
            join_tables(s, n),
        ).to_multiset().add(all_holes(join_conds(s, n)).to_multiset()),
    decreases s, n,
{
    broadcast use vstd::seq_lib::lemma_multiset_commutative;
    broadcast use vstd::multiset::group_multiset_axioms;

    if n == 0 {
        assert(param_names(join_on_params(s, n) + join_params(s, n)) =~= Seq::<Seq<char>>::empty());
        assert(all_holes(join_tables(s, n)) == Seq::<Seq<char>>::empty());
        assert(all_holes(join_conds(s, n)) == Seq::<Seq<char>>::empty());
        assert(Seq::<Seq<char>>::empty() + Seq::<Seq<char>>::empty() =~= Seq::<Seq<char>>::empty());
    } else {
        lemma_join_decreases(s, n - 1);
        let j = s.joins@[n - 1];
        let sub = j.select;
        lemma_join_params_holes(s, n - 1);
        lemma_params_holes(sub);
        assert(names_ok(sub));
        assert(node_ok(sub));
        lemma_join_table(s, n - 1);
        let on = match j.on_cond {
            Some(c) => items_params(c@, sub.alias@),
            None => Seq::empty(),
        };
        let jo0 = join_on_params(s, n - 1);
        let jp0 = join_params(s, n - 1);
        let jt0 = join_tables(s, n - 1);
        let jc0 = join_conds(s, n - 1);
        assert(join_on_params(s, n) == jo0 + on);
        assert(join_params(s, n) == jp0 + params_of(sub));
        assert(join_tables(s, n) == jt0 + seq![join_table(s, n - 1)] + tables_of(sub));
        assert(join_conds(s, n) == jc0 + conds_of(sub));
        lemma_param_names_concat(jo0 + on, jp0 + params_of(sub));
        lemma_param_names_concat(jo0, on);
        lemma_param_names_concat(jp0, params_of(sub));
        lemma_param_names_concat(jo0, jp0);
        lemma_all_holes_one(join_table(s, n - 1));
        lemma_all_holes_concat(jt0, seq![join_table(s, n - 1)]);
        lemma_all_holes_concat(jt0 + seq![join_table(s, n - 1)], tables_of(sub));
        lemma_all_holes_concat(jc0, conds_of(sub));
        assert(param_names(join_on_params(s, n) + join_params(s, n)).to_multiset() =~= param_names(
            jo0 + jp0,
        ).to_multiset().add(param_names(on).to_multiset()).add(param_names(params_of(sub)).to_multiset()));
        assert(param_names(join_on_params(s, n) + join_params(s, n)).to_multiset() =~= all_holes(
            join_tables(s, n),
        ).to_multiset().add(all_holes(join_conds(s, n)).to_multiset()));
    }
}

/// The names in the text of a query are those of its joined tables, then
/// those of its conditions; its selected columns have none.
pub proof fn lemma_sql_holes(s: SelectImpl)
    requires
        names_ok(s),
    ensures
        holes(sql_of(s)) == all_holes(tables_of(s)) + all_holes(conds_of(s)),
{
    reveal_strlit("SELECT\n\t");
    reveal_strlit(",\n\t");
    reveal_strlit(",\n\n\t");
    reveal_strlit("\nFROM\n\t");
    reveal_strlit("\n\t");
    reveal_strlit("\nWHERE\n\t");
    reveal_strlit("\n\tAND ");
    reveal_strlit(" as ");
    reveal_strlit("1 = 1");
    let gs = columns_of(s);
    lemma_columns_plain(s);
    let inner = gs.map_values(|g: Seq<Seq<char>>| join_spec(g, ",\n\t"@));
    assert forall|k: int| 0 <= k < inner.len() implies no_colon(#[trigger] inner[k]) by {
        assert forall|i: int| 0 <= i < gs[k].len() implies no_colon(#[trigger] gs[k][i]) by {}
        lemma_join_plain(gs[k], ",\n\t"@);
    }
    lemma_join_plain(inner, ",\n\n\t"@);
    let j1 = join_spec(inner, ",\n\n\t"@);
    let j2 = join_spec(full_tables(s), "\n\t"@);
    let j3 = join_spec(full_conds(s), "\n\tAND "@);
    let x = "SELECT\n\t"@ + j1;
    lemma_no_colon_cat("SELECT\n\t"@, j1);
    let y = "\nFROM\n\t"@ + j2;
    let z = "\nWHERE\n\t"@ + j3;
    assert(sql_of(s) =~= (x + y) + z);
    assert(z[0] == '\n');
    lemma_holes_concat(x + y, z);
    lemma_holes_after_plain(x, y);
    lemma_holes_after_plain("\nFROM\n\t"@, j2);
    lemma_holes_after_plain("\nWHERE\n\t"@, j3);
    lemma_holes_join(full_tables(s), "\n\t"@);
    lemma_holes_join(full_conds(s), "\n\tAND "@);
    let first = s.meta@.table_name + " as "@ + s.alias@;
    lemma_name_like_plain(s.alias@);
    lemma_no_colon_cat(s.meta@.table_name, " as "@);
    lemma_no_colon_cat(s.meta@.table_name + " as "@, s.alias@);
    lemma_holes_plain(first);
    lemma_all_holes_one(first);
    assert(full_tables(s) == seq![first] + tables_of(s));
    lemma_all_holes_concat(seq![first], tables_of(s));
    assert(Seq::<Seq<char>>::empty() + all_holes(tables_of(s)) =~= all_holes(tables_of(s)));
    if conds_of(s).len() == 0 {
        lemma_holes_plain("1 = 1"@);
        lemma_all_holes_one("1 = 1"@);
        assert(all_holes(conds_of(s)) == Seq::<Seq<char>>::empty());
        assert(all_holes(tables_of(s)) + Seq::<Seq<char>>::empty() =~= all_holes(tables_of(s)));
    }
}

} // verus!
