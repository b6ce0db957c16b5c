//! Field annotations read from single attributes.
use vstd::prelude::*;

use crate::attr::{LitKind, MetaItem, MetaItemKind, NestedMetaItem};
use crate::text::str_eq;

verus! {

/// What one attribute on a field says.
#[derive(Debug)]
pub enum Annotation {
    Id(bool),
    Len(u64),
    Nullable(bool),
    Pointer,
    HasOne(String),
    HasMany(String),
    ManyToMany(String),
}

/// The annotation that an attribute on a field denotes, or `None` where the
/// attribute is not one of the recognised forms: `#[id]`, `#[id(auto)]`,
/// `#[len(N)]`, `#[nullable(B)]` and `#[pointer]`.
pub open spec fn annotation_of(attr: MetaItem) -> Option<Annotation> {
    let name = attr.name@;
    if name == "id"@ {
        match attr.node {
            MetaItemKind::Word => Some(Annotation::Id(false)),
            MetaItemKind::List(v) => if v@.len() == 1 && (v@[0] matches NestedMetaItem::MetaItem(m)
                && m.node is Word && m.name@ == "auto"@) {
                Some(Annotation::Id(true))
            } else {
                None
            },
            _ => None,
        }
    } else if name == "len"@ {
        match attr.node {
            MetaItemKind::List(v) => if v@.len() == 1 && (v@[0] matches NestedMetaItem::Literal(
                LitKind::Int(_),
            )) {
                Some(Annotation::Len(v@[0]->Literal_0->Int_0))
            } else {
                None
            },
            _ => None,
        }
    } else if name == "nullable"@ {
        match attr.node {
            MetaItemKind::List(v) => if v@.len() == 1 && (v@[0] matches NestedMetaItem::Literal(
                LitKind::Bool(_),
            )) {
                Some(Annotation::Nullable(v@[0]->Literal_0->Bool_0))
            } else {
                None
            },
            _ => None,
        }
    } else if name == "pointer"@ {
        match attr.node {
            MetaItemKind::Word => Some(Annotation::Pointer),
            _ => None,
        }
    } else {
        None
    }
}

/// The annotation of one attribute on a field.
pub fn visit_struct_field_attr(attr: &MetaItem) -> (r: Annotation)
    requires
        annotation_of(*attr) is Some,
    ensures
        annotation_of(*attr) == Some(r),
{
    let name = attr.name.as_str();
    if str_eq(name, "id") {
        visit_anno_id(attr)
    } else if str_eq(name, "len") {
        visit_anno_len(attr)
    } else if str_eq(name, "nullable") {
        visit_anno_nullable(attr)
    } else {
        visit_anno_pointer(attr)
    }
}

fn visit_anno_id(attr: &MetaItem) -> (r: Annotation)
    requires
        attr.name@ == "id"@,
        annotation_of(*attr) is Some,
    ensures
        annotation_of(*attr) == Some(r),
{
    match &attr.node {
        MetaItemKind::Word => Annotation::Id(false),
        MetaItemKind::List(vec) => {
            if vec.len() == 1 {
                match &vec[0] {
                    NestedMetaItem::MetaItem(meta_item) => {
                        if let MetaItemKind::Word = meta_item.node {
                            if str_eq(meta_item.name.as_str(), "auto") {
                                return Annotation::Id(true);
                            }
                        }
                    },
                    _ => {},
                }
            }
            vstd::pervasive::unreached()
        },
        _ => vstd::pervasive::unreached(),
    }
}

fn visit_anno_len(attr: &MetaItem) -> (r: Annotation)
    requires
        attr.name@ == "len"@,
        !(attr.name@ == "id"@),
        annotation_of(*attr) is Some,
    ensures
        annotation_of(*attr) == Some(r),
{
    if let MetaItemKind::List(vec) = &attr.node {
        if vec.len() == 1 {
            if let NestedMetaItem::Literal(lit) = &vec[0] {
                if let LitKind::Int(u) = lit {
                    return Annotation::Len(*u);
                }
            }
        }
    }
    vstd::pervasive::unreached()
}

fn visit_anno_nullable(attr: &MetaItem) -> (r: Annotation)
    requires
        attr.name@ == "nullable"@,
        !(attr.name@ == "id"@),
        !(attr.name@ == "len"@),
        annotation_of(*attr) is Some,
    ensures
        annotation_of(*attr) == Some(r),
{
    if let MetaItemKind::List(vec) = &attr.node {
        if vec.len() == 1 {
            if let NestedMetaItem::Literal(lit) = &vec[0] {
                if let LitKind::Bool(b) = lit {
                    return Annotation::Nullable(*b);
                }
            }
        }
    }
    vstd::pervasive::unreached()
}

fn visit_anno_pointer(attr: &MetaItem) -> (r: Annotation)
    requires
        !(attr.name@ == "id"@),
        !(attr.name@ == "len"@),
        !(attr.name@ == "nullable"@),
        annotation_of(*attr) is Some,
    ensures
        annotation_of(*attr) == Some(r),
{
    if let MetaItemKind::Word = attr.node {
        return Annotation::Pointer;
    }
    vstd::pervasive::unreached()
}

} // verus!
