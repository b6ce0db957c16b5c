//! The Rust type of a field as written, and the column type it is stored as.
use vstd::prelude::*;

use crate::text::{concat2, owned, u64_to_string};

verus! {

/// The capture groups of the first match of the regular expression `pattern`
/// in `text`, each the matched text where its group took part (group 0 is the
/// whole match); `Ok(None)` where nothing matches, `Err` where the pattern is
/// not a valid expression.
pub uninterp spec fn regex_captures_of(pattern: Seq<char>, text: Seq<char>) -> Result<Option<Seq<Option<Seq<char>>>>, ()>;

pub open spec fn opt_views(v: Seq<Option<String>>) -> Seq<Option<Seq<char>>> {
    v.map_values(|o: Option<String>| match o {
        Some(s) => Some(s@),
        None => None,
    })
}

/// The view of a capture result.
pub open spec fn captures_view(r: Result<Option<Vec<Option<String>>>, ()>) -> Result<Option<Seq<Option<Seq<char>>>>, ()> {
    match r {
        Ok(Some(v)) => Ok(Some(opt_views(v@))),
        Ok(None) => Ok(None),
        Err(_) => Err(()),
    }
}

/// Compiles `pattern` with `regex::Regex::new` and takes the capture groups
/// of its first match in `text` with `Regex::captures`. The contract names
/// the result: equal arguments give equal results.
#[verifier::external_body]
fn regex_captures(pattern: &str, text: &str) -> (r: Result<Option<Vec<Option<String>>>, ()>)
    ensures
        captures_view(r) == regex_captures_of(pattern@, text@),
{
    let re = match regex::Regex::new(pattern) {
        Ok(re) => re,
        Err(_) => return Err(()),
    };
    match re.captures(text) {
        None => Ok(None),
        Some(c) => {
            let mut groups: Vec<Option<String>> = Vec::new();
            for i in 0..c.len() {
                groups.push(c.get(i).map(|m| m.as_str().to_string()));
            }
            Ok(Some(groups))
        },
    }
}

/// A type written `Option<T>` (group 2 holds `T`) or without angle brackets
/// (group 3 holds it all).
pub const TYPE_PATTERN: &'static str = "(^Option<([^<>]+)>$)|(^[^<>]+$)";

/// The matching can be read: the pattern compiled and matched, and either the
/// third group or the second took part.
pub open spec fn type_readable(caps: Result<Option<Seq<Option<Seq<char>>>>, ()>) -> bool {
    caps matches Ok(Some(g)) && g.len() > 3 && (g[3] is Some || g[2] is Some)
}

/// The type of the values and whether NULL is allowed: a bare type stands for
/// itself and allows no NULL; `Option<T>` stands for `T` and allows NULL.
pub open spec fn attach_type_spec(raw: Seq<char>, caps: Result<Option<Seq<Option<Seq<char>>>>, ()>) -> (Seq<char>, bool) {
    let g = caps->Ok_0->Some_0;
    if g[3] is Some {
        (raw, false)
    } else {
        (g[2]->Some_0, true)
    }
}

/// The type and nullability of the field type `raw`, from the matching of
/// `TYPE_PATTERN` against it.
pub fn attach_type_from(raw: &str, caps: &Result<Option<Vec<Option<String>>>, ()>) -> (r: (String, bool))
    requires
        type_readable(captures_view(*caps)),
    ensures
        (r.0@, r.1) == attach_type_spec(raw@, captures_view(*caps)),
{
    let groups = match caps {
        Ok(Some(g)) => g,
        _ => vstd::pervasive::unreached(),
    };
    proof {
        assert(opt_views(groups@)[3] == match groups@[3] {
            Some(s) => Some(s@),
            None => None::<Seq<char>>,
        });
        assert(opt_views(groups@)[2] == match groups@[2] {
            Some(s) => Some(s@),
            None => None::<Seq<char>>,
        });
    }
    match &groups[3] {
        Some(_) => (owned(raw), false),
        None => match &groups[2] {
            Some(t) => (t.clone(), true),
            None => vstd::pervasive::unreached(),
        },
    }
}

/// The type and nullability of the field type `raw`; `None` for a type that
/// `TYPE_PATTERN` does not read (a generic type other than `Option<T>`).
pub fn attach_type(raw: &str) -> (r: Option<(String, bool)>)
    ensures
        ({
            let caps = regex_captures_of(TYPE_PATTERN@, raw@);
            &&& r is Some <==> type_readable(caps)
            &&& r matches Some(t) ==> (t.0@, t.1) == attach_type_spec(raw@, caps)
        }),
{
    let caps = regex_captures(TYPE_PATTERN, raw);
    let readable = match &caps {
        Ok(Some(g)) => {
            proof {
                assert(opt_views(g@).len() == g@.len());
            }
            g.len() > 3 && (g[3].is_some() || g[2].is_some())
        },
        _ => false,
    };
    if !readable {
        return None;
    }
    Some(attach_type_from(raw, &caps))
}

/// The column types that a field type is stored as.
pub open spec fn db_type_spec(ty: Seq<char>, len: u64, nullable: bool) -> Seq<char> {
    let postfix = if nullable {
        ""@
    } else {
        " NOT NULL"@
    };
    if ty == "i32"@ {
        "INTEGER"@ + postfix
    } else if ty == "i64"@ {
        "BIGINT"@ + postfix
    } else {
        "VARCHAR("@ + crate::text::decimal(len as nat) + ")"@ + postfix
    }
}

/// The field types that have a column type.
pub open spec fn db_type_known(ty: Seq<char>) -> bool {
    ty == "i32"@ || ty == "i64"@ || ty == "String"@
}

/// The column type of a field of type `ty`: `INTEGER`, `BIGINT` or
/// `VARCHAR(len)`, with ` NOT NULL` unless the field allows NULL.
pub fn attach_db_type(ty: &str, len: u64, nullable: bool) -> (r: String)
    requires
        db_type_known(ty@),
    ensures
        r@ == db_type_spec(ty@, len, nullable),
{
    let postfix = if nullable {
        ""
    } else {
        " NOT NULL"
    };
    if crate::text::str_eq(ty, "i32") {
        concat2("INTEGER", postfix)
    } else if crate::text::str_eq(ty, "i64") {
        concat2("BIGINT", postfix)
    } else {
        let mut r = owned("VARCHAR(");
        let digits = u64_to_string(len);
        r.append(digits.as_str());
        r.append(")");
        r.append(postfix);
        r
    }
}

} // verus!
