//! Attributes written on entity declarations, as a tree of names.
//!
//! `MetaItem` and its parts describe an attribute as the Rust parser gives it;
//! `Attr` is the simplified tree that the metadata builder reads.
use vstd::prelude::*;

use crate::assoc::index_of;
use crate::text::{bool_text, bool_to_string, decimal, str_eq, u64_to_string};

verus! {

/// A literal inside an attribute.
#[derive(Debug)]
pub enum LitKind {
    Str(String),
    Int(u64),
    Bool(bool),
    /// Any other literal (bytes, characters, floats).
    Other,
}

/// The shape of an attribute: `#[name]`, `#[name(..)]` or `#[name = lit]`.
#[derive(Debug)]
pub enum MetaItemKind {
    Word,
    List(Vec<NestedMetaItem>),
    NameValue(LitKind),
}

/// One attribute: its name and its shape.
#[derive(Debug)]
pub struct MetaItem {
    pub name: String,
    pub node: MetaItemKind,
}

/// An element of an attribute's list.
#[derive(Debug)]
pub enum NestedMetaItem {
    MetaItem(MetaItem),
    Literal(LitKind),
}

/// An attribute tree: a name, and the list of nested attributes if it has one.
#[derive(Debug)]
pub struct Attr {
    pub name: String,
    pub values: Option<Vec<Attr>>,
}

/// The names of a list of attributes.
pub open spec fn attr_names(s: Seq<Attr>) -> Seq<Seq<char>> {
    s.map_values(|a: Attr| a.name@)
}

/// The name a literal gets in the attribute tree.
pub open spec fn lit_text(l: LitKind) -> Seq<char> {
    match l {
        LitKind::Str(s) => s@,
        LitKind::Int(v) => decimal(v as nat),
        LitKind::Bool(b) => bool_text(b),
        LitKind::Other => Seq::empty(),
    }
}

/// `a` is the tree of the literal `l`.
pub open spec fn attr_of_lit(a: Attr, l: LitKind) -> bool {
    a.name@ == lit_text(l) && a.values is None
}

/// `a` is the tree of the attribute `item`.
pub open spec fn attr_of_meta(a: Attr, item: MetaItem) -> bool
    decreases item,
{
    &&& a.name@ == item.name@
    &&& match item.node {
        MetaItemKind::Word => a.values is None,
        MetaItemKind::List(v) => a.values matches Some(w) && w@.len() == v@.len() && forall|i: int|
            0 <= i < v@.len() ==> attr_of_nested(#[trigger] w@[i], v@[i]),
        MetaItemKind::NameValue(l) => a.values matches Some(w) && w@.len() == 1 && attr_of_lit(
            w@[0],
            l,
        ),
    }
}

/// `a` is the tree of the list element `n`.
pub open spec fn attr_of_nested(a: Attr, n: NestedMetaItem) -> bool
    decreases n,
{
    match n {
        NestedMetaItem::MetaItem(m) => attr_of_meta(a, m),
        NestedMetaItem::Literal(l) => attr_of_lit(a, l),
    }
}

/// No literal in the attribute is of a kind the tree cannot hold.
pub open spec fn meta_lits_ok(item: MetaItem) -> bool
    decreases item,
{
    match item.node {
        MetaItemKind::Word => true,
        MetaItemKind::List(v) => forall|i: int| 0 <= i < v@.len() ==> nested_lits_ok(#[trigger] v@[i]),
        MetaItemKind::NameValue(l) => !(l is Other),
    }
}

pub open spec fn nested_lits_ok(n: NestedMetaItem) -> bool
    decreases n,
{
    match n {
        NestedMetaItem::MetaItem(m) => meta_lits_ok(m),
        NestedMetaItem::Literal(l) => !(l is Other),
    }
}

impl Attr {
    /// Position of the first nested attribute named `name`, or -1.
    pub open spec fn item_index(self, name: Seq<char>) -> int {
        match self.values {
            Some(v) => index_of(attr_names(v@), name),
            None => -1,
        }
    }

    /// A nested attribute is named `name`.
    pub open spec fn has_item(self, name: Seq<char>) -> bool {
        self.item_index(name) >= 0
    }

    /// The first nested attribute named `name`.
    pub open spec fn item(self, name: Seq<char>) -> Attr {
        self.values->Some_0@[self.item_index(name)]
    }

    /// The single value of the attribute named `name` can be read: it has at
    /// most one nested value.
    pub open spec fn get_ok(self, name: Seq<char>) -> bool {
        self.has_item(name) ==> (self.item(name).values matches Some(w) ==> w@.len() <= 1)
    }

    /// The single value of the attribute named `name`, if it has one.
    pub open spec fn value_of(self, name: Seq<char>) -> Option<Seq<char>> {
        if !self.has_item(name) {
            None
        } else {
            match self.item(name).values {
                None => None,
                Some(w) => if w@.len() == 0 {
                    None
                } else {
                    Some(w@[0].name@)
                },
            }
        }
    }

    /// The names of the values of the attribute named `name`.
    pub open spec fn values_of(self, name: Seq<char>) -> Seq<Seq<char>> {
        if !self.has_item(name) {
            Seq::empty()
        } else {
            match self.item(name).values {
                None => Seq::empty(),
                Some(w) => attr_names(w@),
            }
        }
    }

    pub fn new(name: String) -> (r: Attr)
        ensures
            r.name == name,
            r.values is None,
    {
        Attr { name: name, values: None }
    }

    fn find(&self, name: &str) -> (r: Option<usize>)
        ensures
            r matches Some(i) ==> (i == self.item_index(name@) && (self.values matches Some(v) && i < v@.len())),
            r is None ==> self.item_index(name@) == -1,
    {
        match &self.values {
            None => None,
            Some(vec) => {
                let ghost keys = attr_names(vec@);
                let mut i: usize = 0;
                while i < vec.len()
                    invariant
                        i <= vec@.len(),
                        self.values == Some(*vec),
                        keys == attr_names(vec@),
                        forall|j: int| 0 <= j < i ==> keys[j] != name@,
                    decreases vec.len() - i,
                {
                    if str_eq(vec[i].name.as_str(), name) {
                        proof {
                            crate::assoc::lemma_index_of_first(keys, name@, i as int);
                        }
                        return Some(i);
                    }
                    i += 1;
                }
                proof {
                    crate::assoc::lemma_index_of_absent(keys, name@);
                }
                None
            },
        }
    }

    /// Whether a nested attribute is named `name`.
    pub fn has(&self, name: &str) -> (r: bool)
        ensures
            r == self.has_item(name@),
    {
        self.find(name).is_some()
    }

    /// The single value of the attribute named `name`, if it has one.
    pub fn get(&self, name: &str) -> (r: Option<&str>)
        requires
            self.get_ok(name@),
        ensures
            r matches Some(s) ==> self.value_of(name@) == Some(s@),
            r is None ==> self.value_of(name@) is None,
    {
        match self.find(name) {
            None => None,
            Some(i) => match &self.values {
                None => None,
                Some(vec) => {
                    let item = &vec[i];
                    match &item.values {
                        None => None,
                        Some(w) => {
                            if w.len() == 0 {
                                None
                            } else {
                                Some(w[0].name.as_str())
                            }
                        },
                    }
                },
            },
        }
    }

    /// The first nested attribute named `name`.
    pub fn get_attr(&self, name: &str) -> (r: Option<&Attr>)
        ensures
            r matches Some(a) ==> self.has_item(name@) && *a == self.item(name@),
            r is None ==> !self.has_item(name@),
    {
        match self.find(name) {
            None => None,
            Some(i) => match &self.values {
                None => None,
                Some(vec) => Some(&vec[i]),
            },
        }
    }

    /// The names of the values of the attribute named `name`.
    pub fn get_values(&self, name: &str) -> (r: Vec<String>)
        ensures
            crate::text::views(r@) == self.values_of(name@),
    {
        let mut r: Vec<String> = Vec::new();
        match self.get_attr(name) {
            None => {},
            Some(item) => match &item.values {
                None => {},
                Some(w) => {
                    let mut i: usize = 0;
                    while i < w.len()
                        invariant
                            i <= w@.len(),
                            r@.len() == i,
                            forall|j: int| 0 <= j < i ==> #[trigger] r@[j]@ == w@[j].name@,
                        decreases w.len() - i,
                    {
                        r.push(w[i].name.clone());
                        i += 1;
                    }
                    assert(crate::text::views(r@) =~= attr_names(w@));
                },
            },
        }
        assert(crate::text::views(r@) =~= self.values_of(name@));
        r
    }
}

/// The tree of a literal.
pub fn visit_literal(lit: &LitKind) -> (r: Attr)
    requires
        !(lit is Other),
    ensures
        attr_of_lit(r, *lit),
{
    match lit {
        LitKind::Str(s) => Attr::new(s.clone()),
        LitKind::Int(v) => Attr::new(u64_to_string(*v)),
        LitKind::Bool(b) => Attr::new(bool_to_string(*b)),
        LitKind::Other => vstd::pervasive::unreached(),
    }
}

/// The tree of a list element.
pub fn visit_nest(nest_item: &NestedMetaItem) -> (r: Attr)
    requires
        nested_lits_ok(*nest_item),
    ensures
        attr_of_nested(r, *nest_item),
    decreases nest_item,
{
    match nest_item {
        NestedMetaItem::MetaItem(sub_item) => visit_meta(sub_item),
        NestedMetaItem::Literal(lit) => visit_literal(lit),
    }
}

/// The tree of an attribute.
pub fn visit_meta(item: &MetaItem) -> (r: Attr)
    requires
        meta_lits_ok(*item),
    ensures
        attr_of_meta(r, *item),
    decreases item,
{
    let name = item.name.clone();
    match &item.node {
        MetaItemKind::Word => Attr::new(name),
        MetaItemKind::List(vec) => {
            assert(forall|j: int| 0 <= j < vec@.len() ==> nested_lits_ok(#[trigger] vec@[j]));
            let mut values: Vec<Attr> = Vec::new();
            let mut i: usize = 0;
            while i < vec.len()
                invariant
                    i <= vec@.len(),
                    item.node == MetaItemKind::List(*vec),
                    forall|j: int| 0 <= j < vec@.len() ==> nested_lits_ok(#[trigger] vec@[j]),
                    values@.len() == i,
                    forall|j: int| 0 <= j < i ==> attr_of_nested(#[trigger] values@[j], vec@[j]),
                decreases vec.len() - i,
            {
                proof {
                    assert(decreases_to!(*item => item.node));
                    assert(item.node->List_0 == *vec);
                    assert(decreases_to!(item.node => item.node->List_0));
                    assert(decreases_to!(*vec => vec@));
                    assert(decreases_to!(vec@ => vec@[i as int]));
                }
                let a = visit_nest(&vec[i]);
                values.push(a);
                i += 1;
            }
            Attr { name: name, values: Some(values) }
        },
        MetaItemKind::NameValue(lit) => {
            let a = visit_literal(lit);
            let mut values: Vec<Attr> = Vec::new();
            values.push(a);
            Attr { name: name, values: Some(values) }
        },
    }
}

/// The attributes of a declaration, gathered under one nameless tree.
pub fn visit_attrs(attrs: &Vec<MetaItem>) -> (r: Attr)
    requires
        forall|i: int| 0 <= i < attrs@.len() ==> meta_lits_ok(#[trigger] attrs@[i]),
    ensures
        r.name@.len() == 0,
        r.values matches Some(w) && w@.len() == attrs@.len() && forall|i: int|
            0 <= i < attrs@.len() ==> attr_of_meta(#[trigger] w@[i], attrs@[i]),
{
    let mut values: Vec<Attr> = Vec::new();
    let mut i: usize = 0;
    while i < attrs.len()
        invariant
            i <= attrs@.len(),
            forall|i: int| 0 <= i < attrs@.len() ==> meta_lits_ok(#[trigger] attrs@[i]),
            values@.len() == i,
            forall|j: int| 0 <= j < i ==> attr_of_meta(#[trigger] values@[j], attrs@[j]),
        decreases attrs.len() - i,
    {
        let a = visit_meta(&attrs[i]);
        values.push(a);
        i += 1;
    }
    Attr { name: String::new(), values: Some(values) }
}

/// Whether no literal in the attribute is of a kind the tree cannot hold.
pub fn meta_lits_checked(item: &MetaItem) -> (r: bool)
    ensures
        r == meta_lits_ok(*item),
    decreases item,
{
    match &item.node {
        MetaItemKind::Word => true,
        MetaItemKind::List(vec) => {
            let mut i: usize = 0;
            while i < vec.len()
                invariant
                    i <= vec@.len(),
                    item.node == MetaItemKind::List(*vec),
                    forall|j: int| 0 <= j < i ==> nested_lits_ok(#[trigger] vec@[j]),
                decreases vec.len() - i,
            {
                proof {
                    assert(decreases_to!(*item => item.node));
                    assert(item.node->List_0 == *vec);
                    assert(decreases_to!(item.node => item.node->List_0));
                    assert(decreases_to!(*vec => vec@));
                    assert(decreases_to!(vec@ => vec@[i as int]));
                }
                let ok = match &vec[i] {
                    NestedMetaItem::MetaItem(m) => {
                        proof {
                            assert(decreases_to!(vec@[i as int] => vec@[i as int]->MetaItem_0));
                        }
                        meta_lits_checked(m)
                    },
                    NestedMetaItem::Literal(l) => !l.is_other(),
                };
                if !ok {
                    assert(!nested_lits_ok(vec@[i as int]));
                    return false;
                }
                i += 1;
            }
            true
        },
        MetaItemKind::NameValue(l) => !l.is_other(),
    }
}

impl LitKind {
    pub fn is_other(&self) -> (r: bool)
        ensures
            r == (*self is Other),
    {
        match self {
            LitKind::Other => true,
            _ => false,
        }
    }
}

/// Whether no literal in the declaration's attributes is of an unsupported kind.
pub fn attrs_lits_checked(attrs: &Vec<MetaItem>) -> (r: bool)
    ensures
        r == forall|i: int| 0 <= i < attrs@.len() ==> meta_lits_ok(#[trigger] attrs@[i]),
{
    let mut i: usize = 0;
    while i < attrs.len()
        invariant
            i <= attrs@.len(),
            forall|j: int| 0 <= j < i ==> meta_lits_ok(#[trigger] attrs@[j]),
        decreases attrs.len() - i,
    {
        if !meta_lits_checked(&attrs[i]) {
            return false;
        }
        i += 1;
    }
    true
}

impl Attr {
    /// Whether the single value of the attribute named `name` can be read.
    pub fn get_checked(&self, name: &str) -> (r: bool)
        ensures
            r == self.get_ok(name@),
    {
        match self.get_attr(name) {
            None => true,
            Some(item) => match &item.values {
                None => true,
                Some(w) => w.len() <= 1,
            },
        }
    }
}

} // verus!
