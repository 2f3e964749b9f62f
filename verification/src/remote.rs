//! What the server reports about collections, attributes and indexes, and
//! how it is turned into the local schema file's form.
use vstd::prelude::*;

use crate::json::JsonValue;
use crate::schema::{normalized_all, AttributeSpec, IndexSpec};
use crate::text::{normalize_identifier, normalized_identifier, owned, str_eq, str_views};

verus! {

/// A collection as the server lists it.
pub struct RemoteCollection {
    pub id: String,
    pub name: String,
    pub enabled: bool,
    pub document_security: bool,
    pub permissions: Vec<String>,
}

/// An attribute as the server lists it.
pub struct RemoteAttribute {
    pub key: String,
    pub attr_type: String,
    pub format: Option<String>,
    pub required: bool,
    pub array: bool,
    pub size: Option<u32>,
    pub min: Option<String>,
    pub max: Option<String>,
    pub default: Option<JsonValue>,
    pub elements: Vec<String>,
    pub related_collection_id: Option<String>,
    pub relation_type: Option<String>,
    pub two_way: Option<bool>,
    pub two_way_key: Option<String>,
    pub on_delete: Option<String>,
    pub status: Option<String>,
    pub error: Option<String>,
}

/// An index as the server lists it.
pub struct RemoteIndex {
    pub key: String,
    pub index_type: String,
    pub attributes: Vec<String>,
    pub orders: Vec<String>,
    pub status: Option<String>,
    pub error: Option<String>,
}

/// The normalized, non-empty forms of the given strings, in order.
pub open spec fn normalized_list(v: Seq<String>) -> Seq<Seq<char>> {
    normalized_all(v).filter(|s: Seq<char>| s.len() > 0)
}

/// Normalizes each string and drops those that become empty.
pub fn normalize_string_list(values: &Vec<String>) -> (out: Vec<String>)
    ensures
        str_views(out@) == normalized_list(values@),
{
    let mut out: Vec<String> = Vec::new();
    let mut i: usize = 0;
    while i < values.len()
        invariant
            i <= values.len(),
            str_views(out@) == normalized_all(values@.take(i as int)).filter(
                |s: Seq<char>| s.len() > 0,
            ),
        decreases values.len() - i,
    {
        let n = normalize_identifier(values[i].as_str());
        let ghost before = out@;
        proof {
            let t = normalized_all(values@.take(i + 1));
            assert(t.drop_last() == normalized_all(values@.take(i as int)));
            assert(t.last() == n@);
            reveal(Seq::filter);
        }
        if !n.as_str().is_empty() {
            out.push(n);
            proof {
                assert(str_views(out@) == str_views(before).push(n@));
            }
        }
        i = i + 1;
    }
    proof {
        assert(values@.take(values@.len() as int) == values@);
    }
    out
}

/// The local attribute type of a remote attribute: string attributes with a
/// known format are named by their format.
pub open spec fn local_attribute_kind(t: Seq<char>, format: Option<String>) -> Seq<char> {
    match format {
        Some(f) => if t == "string"@ && (f@ == "email"@ || f@ == "enum"@ || f@ == "ip"@ || f@
            == "url"@ || f@ == "datetime"@) {
            f@
        } else {
            t
        },
        None => t,
    }
}

/// Whether `r` is the local file's form of the remote attribute `a`: the
/// key normalized, the type as `local_attribute_kind` gives it, no
/// encryption flag or new key, and everything else as the server reports it.
pub open spec fn attribute_from_remote(r: AttributeSpec, a: RemoteAttribute) -> bool {
    &&& r.key@ == normalized_identifier(a.key@)
    &&& r.attr_type@ == local_attribute_kind(a.attr_type@, a.format)
    &&& r.format == a.format
    &&& r.required == a.required
    &&& r.array == a.array
    &&& r.size == a.size
    &&& r.min == a.min
    &&& r.max == a.max
    &&& r.default == a.default
    &&& r.elements == a.elements
    &&& r.related_collection_id == a.related_collection_id
    &&& r.relation_type == a.relation_type
    &&& r.two_way == a.two_way
    &&& r.two_way_key == a.two_way_key
    &&& r.on_delete == a.on_delete
    &&& r.encrypt is None
    &&& r.status == a.status
    &&& r.error == a.error
    &&& r.new_key is None
}

/// Converts a remote attribute into the local file's form.
pub fn remote_attribute_to_local(attr: RemoteAttribute) -> (r: AttributeSpec)
    ensures
        attribute_from_remote(r, attr),
{
    let kind = match &attr.format {
        Some(f) => {
            let fs = f.as_str();
            if str_eq(attr.attr_type.as_str(), "string") && (str_eq(fs, "email") || str_eq(
                fs,
                "enum",
            ) || str_eq(fs, "ip") || str_eq(fs, "url") || str_eq(fs, "datetime")) {
                owned(fs)
            } else {
                owned(attr.attr_type.as_str())
            }
        },
        None => owned(attr.attr_type.as_str()),
    };
    AttributeSpec {
        key: normalize_identifier(attr.key.as_str()),
        attr_type: kind,
        format: attr.format,
        required: attr.required,
        array: attr.array,
        size: attr.size,
        min: attr.min,
        max: attr.max,
        default: attr.default,
        elements: attr.elements,
        related_collection_id: attr.related_collection_id,
        relation_type: attr.relation_type,
        two_way: attr.two_way,
        two_way_key: attr.two_way_key,
        on_delete: attr.on_delete,
        encrypt: None,
        status: attr.status,
        error: attr.error,
        new_key: None,
    }
}

/// Whether `r` is the local file's form of the remote index `i`: the key
/// normalized, the attributes normalized with the empty ones dropped, and
/// everything else as the server reports it.
pub open spec fn index_from_remote(r: IndexSpec, i: RemoteIndex) -> bool {
    &&& r.key@ == normalized_identifier(i.key@)
    &&& r.index_type == i.index_type
    &&& str_views(r.attributes@) == normalized_list(i.attributes@)
    &&& r.orders == i.orders
    &&& r.status == i.status
    &&& r.error == i.error
}

/// Converts a remote index into the local file's form.
pub fn remote_index_to_local(idx: RemoteIndex) -> (r: IndexSpec)
    ensures
        index_from_remote(r, idx),
{
    let attributes = normalize_string_list(&idx.attributes);
    IndexSpec {
        key: normalize_identifier(idx.key.as_str()),
        index_type: idx.index_type,
        attributes,
        orders: idx.orders,
        status: idx.status,
        error: idx.error,
    }
}

/// Law: pulling keeps the server's type of an attribute, except that a
/// string with the format `email`, `enum`, `ip`, `url` or `datetime` becomes
/// an attribute of that type; the key comes normalized.
pub proof fn law_pulled_attribute_type(r: AttributeSpec, a: RemoteAttribute)
    requires
        attribute_from_remote(r, a),
    ensures
        a.attr_type@ == "string"@ && (a.format matches Some(f) && f@ == "email"@) ==> r.attr_type@
            == "email"@,
        a.attr_type@ == "string"@ && (a.format matches Some(f) && f@ == "enum"@) ==> r.attr_type@
            == "enum"@,
        a.attr_type@ == "string"@ && (a.format matches Some(f) && f@ == "ip"@) ==> r.attr_type@
            == "ip"@,
        a.attr_type@ == "string"@ && (a.format matches Some(f) && f@ == "url"@) ==> r.attr_type@
            == "url"@,
        a.attr_type@ == "string"@ && (a.format matches Some(f) && f@ == "datetime"@) ==> r.attr_type@
            == "datetime"@,
        a.format is None ==> r.attr_type@ == a.attr_type@,
        a.attr_type@ != "string"@ ==> r.attr_type@ == a.attr_type@,
        (a.format matches Some(f) && !(f@ == "email"@ || f@ == "enum"@ || f@ == "ip"@ || f@
            == "url"@ || f@ == "datetime"@)) ==> r.attr_type@ == a.attr_type@,
        r.key@ == normalized_identifier(a.key@),
        r.format == a.format,
{
    reveal_strlit("email");
    reveal_strlit("enum");
    reveal_strlit("ip");
    reveal_strlit("url");
    reveal_strlit("datetime");
    reveal_strlit("string");
}

/// Law: normalizing a list keeps, in order, the normalized form of each
/// entry that does not normalize to nothing: every kept entry is non-empty
/// and the normalized form of an entry given, every entry with a non-empty
/// normalized form is kept, and nothing is added.
pub proof fn law_normalized_list(v: Seq<String>)
    ensures
        normalized_list(v).len() <= v.len(),
        forall|k: int|
            0 <= k < normalized_list(v).len() ==> (#[trigger] normalized_list(v)[k]).len() > 0
                && exists|j: int|
                0 <= j < v.len() && normalized_list(v)[k] == normalized_identifier(v[j]@),
        forall|j: int|
            0 <= j < v.len() && normalized_identifier(v[j]@).len() > 0
                ==> normalized_list(v).contains(normalized_identifier(#[trigger] v[j]@)),
{
    let all = normalized_all(v);
    let keep = |s: Seq<char>| s.len() > 0;
    all.filter_lemma(keep);
    assert forall|k: int| 0 <= k < normalized_list(v).len() implies (#[trigger] normalized_list(
        v,
    )[k]).len() > 0 && exists|j: int|
        0 <= j < v.len() && normalized_list(v)[k] == normalized_identifier(v[j]@) by {
        let x = normalized_list(v)[k];
        assert(keep(x));
        assert(all.filter(keep).contains(x));
        all.lemma_filter_contains_rev(keep, x);
        let j = choose|j: int| 0 <= j < all.len() && all[j] == x;
        assert(all[j] == normalized_identifier(v[j]@));
    }
    assert forall|j: int| 0 <= j < v.len() && normalized_identifier(v[j]@).len() > 0 implies
        normalized_list(v).contains(normalized_identifier(#[trigger] v[j]@)) by {
        assert(all[j] == normalized_identifier(v[j]@));
        assert(keep(all[j]));
    }
}

/// Law: pulling an index keeps its type, orders, status and error, normalizes
/// its key, and lists the normalized attributes that are not empty: each one
/// comes from an attribute the server names, and every attribute the server
/// names that normalizes to something is listed.
pub proof fn law_pulled_index(r: IndexSpec, i: RemoteIndex)
    requires
        index_from_remote(r, i),
    ensures
        r.key@ == normalized_identifier(i.key@),
        r.index_type == i.index_type,
        r.orders == i.orders,
        r.status == i.status,
        r.error == i.error,
        forall|k: int|
            0 <= k < r.attributes@.len() ==> (#[trigger] r.attributes@[k])@.len() > 0 && exists|
                j: int,
            |
                0 <= j < i.attributes@.len() && r.attributes@[k]@ == normalized_identifier(
                    i.attributes@[j]@,
                ),
        forall|j: int|
            0 <= j < i.attributes@.len() && normalized_identifier(i.attributes@[j]@).len() > 0
                ==> str_views(r.attributes@).contains(
                normalized_identifier(#[trigger] i.attributes@[j]@),
            ),
{
    law_normalized_list(i.attributes@);
    assert forall|k: int| 0 <= k < r.attributes@.len() implies (#[trigger] r.attributes@[k])@.len()
        > 0 && exists|j: int|
        0 <= j < i.attributes@.len() && r.attributes@[k]@ == normalized_identifier(
            i.attributes@[j]@,
        ) by {
        assert(str_views(r.attributes@)[k] == r.attributes@[k]@);
        assert(normalized_list(i.attributes@)[k] == r.attributes@[k]@);
    }
}

} // verus!
