//! Conditions of a query: comparisons of an entity's fields with values, and
//! comparisons between the fields of two joined entities.
use vstd::prelude::*;

use crate::text::{concat2, join, join_spec, owned, views};
use crate::value::Value;

verus! {

/// One comparison of a condition.
#[derive(Debug)]
pub enum Item {
    Id(Value),
    Eq(String, Value),
    Ne(String, Value),
    Gt(String, Value),
    Lt(String, Value),
    Null(String),
    NotNull(String),
}

/// The mathematical value of a comparison: field names as character sequences.
pub enum ItemView {
    Id(Value),
    Eq(Seq<char>, Value),
    Ne(Seq<char>, Value),
    Gt(Seq<char>, Value),
    Lt(Seq<char>, Value),
    Null(Seq<char>),
    NotNull(Seq<char>),
}

impl View for Item {
    type V = ItemView;

    open spec fn view(&self) -> ItemView {
        match self {
            Item::Id(v) => ItemView::Id(*v),
            Item::Eq(f, v) => ItemView::Eq(f@, *v),
            Item::Ne(f, v) => ItemView::Ne(f@, *v),
            Item::Gt(f, v) => ItemView::Gt(f@, *v),
            Item::Lt(f, v) => ItemView::Lt(f@, *v),
            Item::Null(f) => ItemView::Null(f@),
            Item::NotNull(f) => ItemView::NotNull(f@),
        }
    }
}

/// The parameter name of a field under an alias: `<alias>_<field>`.
pub open spec fn param_name(alias: Seq<char>, field: Seq<char>) -> Seq<char> {
    alias + "_"@ + field
}

/// A comparison of a field with a parameter.
pub open spec fn compare_sql(alias: Seq<char>, field: Seq<char>, op: Seq<char>) -> Seq<char> {
    alias + "."@ + field + op + ":"@ + param_name(alias, field)
}

impl ItemView {
    /// The SQL of the comparison for the entity aliased `alias`.
    pub open spec fn sql(self, alias: Seq<char>) -> Seq<char> {
        match self {
            ItemView::Id(_) => compare_sql(alias, "id"@, " = "@),
            ItemView::Eq(f, _) => compare_sql(alias, f, " = "@),
            ItemView::Ne(f, _) => compare_sql(alias, f, " <> "@),
            ItemView::Gt(f, _) => compare_sql(alias, f, " > "@),
            ItemView::Lt(f, _) => compare_sql(alias, f, " < "@),
            ItemView::Null(f) => alias + "."@ + f + " IS NULL"@,
            ItemView::NotNull(f) => alias + "."@ + f + " IS NOT NULL"@,
        }
    }

    /// The named parameters that the comparison binds.
    pub open spec fn params(self, alias: Seq<char>) -> Seq<(Seq<char>, Value)> {
        match self {
            ItemView::Id(v) => seq![(param_name(alias, "id"@), v)],
            ItemView::Eq(f, v) => seq![(param_name(alias, f), v)],
            ItemView::Ne(f, v) => seq![(param_name(alias, f), v)],
            ItemView::Gt(f, v) => seq![(param_name(alias, f), v)],
            ItemView::Lt(f, v) => seq![(param_name(alias, f), v)],
            ItemView::Null(_) => Seq::empty(),
            ItemView::NotNull(_) => Seq::empty(),
        }
    }
}

/// The parameters of a list of comparisons, in order.
pub open spec fn items_params(items: Seq<ItemView>, alias: Seq<char>) -> Seq<(Seq<char>, Value)>
    decreases items.len(),
{
    if items.len() == 0 {
        Seq::empty()
    } else {
        items_params(items.drop_last(), alias) + items.last().params(alias)
    }
}

/// The views of named parameters.
pub open spec fn param_views(ps: Seq<(String, Value)>) -> Seq<(Seq<char>, Value)> {
    ps.map_values(|p: (String, Value)| (p.0@, p.1))
}

fn concat(alias: &str, field: &str) -> (r: String)
    ensures
        r@ == param_name(alias@, field@),
{
    let mut r = concat2(alias, "_");
    r.append(field);
    r
}

impl Item {
    fn duplicate(&self) -> (r: Item)
        ensures
            r@ == self@,
    {
        match self {
            Item::Id(v) => Item::Id(v.clone()),
            Item::Eq(f, v) => Item::Eq(f.clone(), v.clone()),
            Item::Ne(f, v) => Item::Ne(f.clone(), v.clone()),
            Item::Gt(f, v) => Item::Gt(f.clone(), v.clone()),
            Item::Lt(f, v) => Item::Lt(f.clone(), v.clone()),
            Item::Null(f) => Item::Null(f.clone()),
            Item::NotNull(f) => Item::NotNull(f.clone()),
        }
    }

    fn to_sql(&self, alias: &str) -> (r: String)
        ensures
            r@ == self@.sql(alias@),
    {
        let (field, op): (&str, &str) = match self {
            Item::Id(..) => ("id", " = "),
            Item::Eq(field, ..) => (field.as_str(), " = "),
            Item::Ne(field, ..) => (field.as_str(), " <> "),
            Item::Gt(field, ..) => (field.as_str(), " > "),
            Item::Lt(field, ..) => (field.as_str(), " < "),
            Item::Null(field) => {
                let mut r = concat2(alias, ".");
                r.append(field.as_str());
                r.append(" IS NULL");
                return r;
            },
            Item::NotNull(field) => {
                let mut r = concat2(alias, ".");
                r.append(field.as_str());
                r.append(" IS NOT NULL");
                return r;
            },
        };
        let mut r = concat2(alias, ".");
        r.append(field);
        r.append(op);
        r.append(":");
        let p = concat(alias, field);
        r.append(p.as_str());
        r
    }

    fn to_params(&self, alias: &str) -> (r: Vec<(String, Value)>)
        ensures
            param_views(r@) == self@.params(alias@),
    {
        let mut r: Vec<(String, Value)> = Vec::new();
        match self {
            Item::Id(value) => r.push((concat(alias, "id"), value.clone())),
            Item::Eq(field, value) | Item::Ne(field, value) | Item::Gt(field, value) | Item::Lt(
                field,
                value,
            ) => r.push((concat(alias, field.as_str()), value.clone())),
            Item::Null(..) | Item::NotNull(..) => {},
        }
        assert(param_views(r@) =~= self@.params(alias@));
        r
    }
}

/// A conjunction of comparisons of an entity's fields with values.
#[derive(Debug)]
pub struct Cond {
    items: Vec<Item>,
}

impl View for Cond {
    type V = Seq<ItemView>;

    closed spec fn view(&self) -> Seq<ItemView> {
        self.items@.map_values(|i: Item| i@)
    }
}

/// The SQL of a condition: its comparisons joined with `AND`.
pub open spec fn cond_sql(items: Seq<ItemView>, alias: Seq<char>) -> Seq<char> {
    join_spec(items.map_values(|i: ItemView| i.sql(alias)), " AND "@)
}

impl Cond {
    /// A copy of the condition.
    pub fn duplicate(&self) -> (r: Cond)
        ensures
            r@ == self@,
    {
        let mut items: Vec<Item> = Vec::new();
        let mut i: usize = 0;
        while i < self.items.len()
            invariant
                i <= self.items@.len(),
                items@.len() == i,
                forall|j: int| 0 <= j < i ==> #[trigger] items@[j]@ == self.items@[j]@,
            decreases self.items.len() - i,
        {
            items.push(self.items[i].duplicate());
            i += 1;
        }
        let r = Cond { items: items };
        assert(r@ =~= self@);
        r
    }

    pub fn new() -> (r: Self)
        ensures
            r@ == Seq::<ItemView>::empty(),
    {
        let r = Cond { items: Vec::new() };
        assert(r@ =~= Seq::<ItemView>::empty());
        r
    }

    fn push(&mut self, item: Item)
        ensures
            final(self)@ == old(self)@.push(item@),
    {
        let ghost before = self.items@;
        self.items.push(item);
        assert(self.items@.map_values(|i: Item| i@) =~= before.map_values(|i: Item| i@).push(item@));
    }

    pub fn by_id(id: Value) -> (r: Self)
        ensures
            r@ == seq![ItemView::Id(id)],
    {
        let mut cond = Cond::new();
        cond.id(id);
        cond
    }

    pub fn by_eq(field: &str, value: Value) -> (r: Self)
        ensures
            r@ == seq![ItemView::Eq(field@, value)],
    {
        let mut cond = Cond::new();
        cond.eq(field, value);
        cond
    }

    pub fn by_ne(field: &str, value: Value) -> (r: Self)
        ensures
            r@ == seq![ItemView::Ne(field@, value)],
    {
        let mut cond = Cond::new();
        cond.ne(field, value);
        cond
    }

    pub fn by_gt(field: &str, value: Value) -> (r: Self)
        ensures
            r@ == seq![ItemView::Gt(field@, value)],
    {
        let mut cond = Cond::new();
        cond.gt(field, value);
        cond
    }

    pub fn by_lt(field: &str, value: Value) -> (r: Self)
        ensures
            r@ == seq![ItemView::Lt(field@, value)],
    {
        let mut cond = Cond::new();
        cond.lt(field, value);
        cond
    }

    pub fn by_is_null(field: &str) -> (r: Self)
        ensures
            r@ == seq![ItemView::Null(field@)],
    {
        let mut cond = Cond::new();
        cond.is_null(field);
        cond
    }

    pub fn by_not_null(field: &str) -> (r: Self)
        ensures
            r@ == seq![ItemView::NotNull(field@)],
    {
        let mut cond = Cond::new();
        cond.not_null(field);
        cond
    }

    pub fn id(&mut self, id: Value) -> (r: &mut Self)
        ensures
            *final(self) == *final(r),
            r@ == old(self)@.push(ItemView::Id(id)),
    {
        self.push(Item::Id(id));
        self
    }

    pub fn eq(&mut self, field: &str, value: Value) -> (r: &mut Self)
        ensures
            *final(self) == *final(r),
            r@ == old(self)@.push(ItemView::Eq(field@, value)),
    {
        self.push(Item::Eq(owned(field), value));
        self
    }

    pub fn ne(&mut self, field: &str, value: Value) -> (r: &mut Self)
        ensures
            *final(self) == *final(r),
            r@ == old(self)@.push(ItemView::Ne(field@, value)),
    {
        self.push(Item::Ne(owned(field), value));
        self
    }

    pub fn gt(&mut self, field: &str, value: Value) -> (r: &mut Self)
        ensures
            *final(self) == *final(r),
            r@ == old(self)@.push(ItemView::Gt(field@, value)),
    {
        self.push(Item::Gt(owned(field), value));
        self
    }

    pub fn lt(&mut self, field: &str, value: Value) -> (r: &mut Self)
        ensures
            *final(self) == *final(r),
            r@ == old(self)@.push(ItemView::Lt(field@, value)),
    {
        self.push(Item::Lt(owned(field), value));
        self
    }

    pub fn is_null(&mut self, field: &str) -> (r: &mut Self)
        ensures
            *final(self) == *final(r),
            r@ == old(self)@.push(ItemView::Null(field@)),
    {
        self.push(Item::Null(owned(field)));
        self
    }

    pub fn not_null(&mut self, field: &str) -> (r: &mut Self)
        ensures
            *final(self) == *final(r),
            r@ == old(self)@.push(ItemView::NotNull(field@)),
    {
        self.push(Item::NotNull(owned(field)));
        self
    }

    /// The comparisons joined with `AND`, for the entity aliased `alias`.
    pub fn to_sql(&self, alias: &str) -> (r: String)
        ensures
            r@ == cond_sql(self@, alias@),
    {
        let mut parts: Vec<String> = Vec::new();
        let mut i: usize = 0;
        while i < self.items.len()
            invariant
                i <= self.items@.len(),
                parts@.len() == i,
                forall|j: int| 0 <= j < i ==> #[trigger] parts@[j]@ == self.items@[j]@.sql(alias@),
            decreases self.items.len() - i,
        {
            parts.push(self.items[i].to_sql(alias));
            i += 1;
        }
        assert(views(parts@) =~= self@.map_values(|it: ItemView| it.sql(alias@)));
        join(&parts, " AND ")
    }

    /// The named parameters of the comparisons, in order.
    pub fn to_params(&self, alias: &str) -> (r: Vec<(String, Value)>)
        ensures
            param_views(r@) == items_params(self@, alias@),
    {
        let mut r: Vec<(String, Value)> = Vec::new();
        let mut i: usize = 0;
        while i < self.items.len()
            invariant
                i <= self.items@.len(),
                param_views(r@) == items_params(self@.take(i as int), alias@),
            decreases self.items.len() - i,
        {
            let mut ps = self.items[i].to_params(alias);
            let ghost before = r@;
            let ghost added = ps@;
            r.append(&mut ps);
            assert(self@.take(i + 1).drop_last() =~= self@.take(i as int));
            assert(param_views(r@) =~= param_views(before) + param_views(added));
            i += 1;
        }
        assert(self@.take(i as int) =~= self@);
        r
    }
}

/// One comparison between a field of each of two joined entities.
#[derive(Debug)]
pub enum JoinItem {
    Eq(String, String),
    Ne(String, String),
    Gt(String, String),
    Lt(String, String),
}

pub enum JoinItemView {
    Eq(Seq<char>, Seq<char>),
    Ne(Seq<char>, Seq<char>),
    Gt(Seq<char>, Seq<char>),
    Lt(Seq<char>, Seq<char>),
}

impl View for JoinItem {
    type V = JoinItemView;

    open spec fn view(&self) -> JoinItemView {
        match self {
            JoinItem::Eq(a, b) => JoinItemView::Eq(a@, b@),
            JoinItem::Ne(a, b) => JoinItemView::Ne(a@, b@),
            JoinItem::Gt(a, b) => JoinItemView::Gt(a@, b@),
            JoinItem::Lt(a, b) => JoinItemView::Lt(a@, b@),
        }
    }
}

impl JoinItemView {
    pub open spec fn sql(self, a1: Seq<char>, a2: Seq<char>) -> Seq<char> {
        match self {
            JoinItemView::Eq(f1, f2) => a1 + "."@ + f1 + " = "@ + a2 + "."@ + f2,
            JoinItemView::Ne(f1, f2) => a1 + "."@ + f1 + " <> "@ + a2 + "."@ + f2,
            JoinItemView::Gt(f1, f2) => a1 + "."@ + f1 + " > "@ + a2 + "."@ + f2,
            JoinItemView::Lt(f1, f2) => a1 + "."@ + f1 + " < "@ + a2 + "."@ + f2,
        }
    }
}

impl JoinItem {
    fn duplicate(&self) -> (r: JoinItem)
        ensures
            r@ == self@,
    {
        match self {
            JoinItem::Eq(a, b) => JoinItem::Eq(a.clone(), b.clone()),
            JoinItem::Ne(a, b) => JoinItem::Ne(a.clone(), b.clone()),
            JoinItem::Gt(a, b) => JoinItem::Gt(a.clone(), b.clone()),
            JoinItem::Lt(a, b) => JoinItem::Lt(a.clone(), b.clone()),
        }
    }

    fn to_sql(&self, a1: &str, a2: &str) -> (r: String)
        ensures
            r@ == self@.sql(a1@, a2@),
    {
        let (f1, op, f2): (&str, &str, &str) = match self {
            JoinItem::Eq(f1, f2) => (f1.as_str(), " = ", f2.as_str()),
            JoinItem::Ne(f1, f2) => (f1.as_str(), " <> ", f2.as_str()),
            JoinItem::Gt(f1, f2) => (f1.as_str(), " > ", f2.as_str()),
            JoinItem::Lt(f1, f2) => (f1.as_str(), " < ", f2.as_str()),
        };
        let mut r = concat2(a1, ".");
        r.append(f1);
        r.append(op);
        r.append(a2);
        r.append(".");
        r.append(f2);
        r
    }
}

/// A conjunction of comparisons between the fields of two joined entities.
#[derive(Debug)]
pub struct JoinCond {
    items: Vec<JoinItem>,
}

impl View for JoinCond {
    type V = Seq<JoinItemView>;

    closed spec fn view(&self) -> Seq<JoinItemView> {
        self.items@.map_values(|i: JoinItem| i@)
    }
}

/// The SQL of a join condition between the entities aliased `a1` and `a2`.
pub open spec fn join_cond_sql(items: Seq<JoinItemView>, a1: Seq<char>, a2: Seq<char>) -> Seq<char> {
    join_spec(items.map_values(|i: JoinItemView| i.sql(a1, a2)), " AND "@)
}

impl JoinCond {
    /// A copy of the join condition.
    pub fn duplicate(&self) -> (r: JoinCond)
        ensures
            r@ == self@,
    {
        let mut items: Vec<JoinItem> = Vec::new();
        let mut i: usize = 0;
        while i < self.items.len()
            invariant
                i <= self.items@.len(),
                items@.len() == i,
                forall|j: int| 0 <= j < i ==> #[trigger] items@[j]@ == self.items@[j]@,
            decreases self.items.len() - i,
        {
            items.push(self.items[i].duplicate());
            i += 1;
        }
        let r = JoinCond { items: items };
        assert(r@ =~= self@);
        r
    }

    pub fn new() -> (r: Self)
        ensures
            r@ == Seq::<JoinItemView>::empty(),
    {
        let r = JoinCond { items: Vec::new() };
        assert(r@ =~= Seq::<JoinItemView>::empty());
        r
    }

    fn push(&mut self, item: JoinItem)
        ensures
            final(self)@ == old(self)@.push(item@),
    {
        let ghost before = self.items@;
        self.items.push(item);
        assert(self.items@.map_values(|i: JoinItem| i@) =~= before.map_values(|i: JoinItem| i@).push(
            item@,
        ));
    }

    pub fn by_eq(f1: &str, f2: &str) -> (r: Self)
        ensures
            r@ == seq![JoinItemView::Eq(f1@, f2@)],
    {
        let mut cond = JoinCond::new();
        cond.eq(f1, f2);
        cond
    }

    pub fn by_ne(f1: &str, f2: &str) -> (r: Self)
        ensures
            r@ == seq![JoinItemView::Ne(f1@, f2@)],
    {
        let mut cond = JoinCond::new();
        cond.ne(f1, f2);
        cond
    }

    pub fn by_gt(f1: &str, f2: &str) -> (r: Self)
        ensures
            r@ == seq![JoinItemView::Gt(f1@, f2@)],
    {
        let mut cond = JoinCond::new();
        cond.gt(f1, f2);
        cond
    }

    pub fn by_lt(f1: &str, f2: &str) -> (r: Self)
        ensures
            r@ == seq![JoinItemView::Lt(f1@, f2@)],
    {
        let mut cond = JoinCond::new();
        cond.lt(f1, f2);
        cond
    }

    pub fn eq(&mut self, f1: &str, f2: &str) -> (r: &mut Self)
        ensures
            *final(self) == *final(r),
            r@ == old(self)@.push(JoinItemView::Eq(f1@, f2@)),
    {
        self.push(JoinItem::Eq(owned(f1), owned(f2)));
        self
    }

    pub fn ne(&mut self, f1: &str, f2: &str) -> (r: &mut Self)
        ensures
            *final(self) == *final(r),
            r@ == old(self)@.push(JoinItemView::Ne(f1@, f2@)),
    {
        self.push(JoinItem::Ne(owned(f1), owned(f2)));
        self
    }

    pub fn gt(&mut self, f1: &str, f2: &str) -> (r: &mut Self)
        ensures
            *final(self) == *final(r),
            r@ == old(self)@.push(JoinItemView::Gt(f1@, f2@)),
    {
        self.push(JoinItem::Gt(owned(f1), owned(f2)));
        self
    }

    pub fn lt(&mut self, f1: &str, f2: &str) -> (r: &mut Self)
        ensures
            *final(self) == *final(r),
            r@ == old(self)@.push(JoinItemView::Lt(f1@, f2@)),
    {
        self.push(JoinItem::Lt(owned(f1), owned(f2)));
        self
    }

    /// The comparisons joined with `AND`, between the entities aliased `a1` and `a2`.
    pub fn to_sql(&self, a1: &str, a2: &str) -> (r: String)
        ensures
            r@ == join_cond_sql(self@, a1@, a2@),
    {
        let mut parts: Vec<String> = Vec::new();
        let mut i: usize = 0;
        while i < self.items.len()
            invariant
                i <= self.items@.len(),
                parts@.len() == i,
                forall|j: int| 0 <= j < i ==> #[trigger] parts@[j]@ == self.items@[j]@.sql(a1@, a2@),
            decreases self.items.len() - i,
        {
            parts.push(self.items[i].to_sql(a1, a2));
            i += 1;
        }
        assert(views(parts@) =~= self@.map_values(|it: JoinItemView| it.sql(a1@, a2@)));
        join(&parts, " AND ")
    }
}

} // verus!
