//! The request bodies that push sends for collections, attributes and
//! indexes.
use vstd::prelude::*;

use crate::json::{
    fields_json, json_opt, json_opt_number, json_opt_str, json_str, json_str_list, object,
    opt_json, opt_number_json, opt_str_json, push_field, str_list_json, Json, JsonValue,
};
use crate::schema::AttributeSpec;
use crate::text::{normalize_identifier, normalized_identifier, owned, str_eq};

verus! {

/// Why no request body can be built for an attribute.
#[derive(PartialEq, Eq, Structural, Debug, Clone, Copy)]
pub enum PayloadIssue {
    /// An `enum` attribute without elements.
    EnumWithoutElements,
    /// An attribute type that the server does not know.
    UnsupportedType,
}

/// The size a string attribute is sent with: its own, else 255.
pub open spec fn sent_size(size: Option<u32>) -> u64 {
    match size {
        Some(n) => n as u64,
        None => 255,
    }
}

/// A flag that is sent as `false` when unset.
pub open spec fn sent_flag(b: Option<bool>) -> bool {
    match b {
        Some(x) => x,
        None => false,
    }
}

/// A text that is sent as `default` when unset.
pub open spec fn sent_text(o: Option<String>, default: Seq<char>) -> Seq<char> {
    match o {
        Some(x) => x@,
        None => default,
    }
}

/// The fields that most attribute kinds share when created.
pub open spec fn common_create_fields(a: AttributeSpec) -> Seq<(Seq<char>, Json)> {
    Seq::empty()
        .push(("key"@, Json::Str(normalized_identifier(a.key@))))
        .push(("required"@, Json::Bool(a.required)))
        .push(("default"@, opt_json(a.default)))
        .push(("array"@, Json::Bool(a.array)))
}

/// The URL segment and body that create an attribute on the server.
pub open spec fn create_attribute_payload_spec(a: AttributeSpec) -> Result<
    (Seq<char>, Json),
    PayloadIssue,
> {
    let t = a.attr_type@;
    if t == "string"@ {
        Ok(
            (
                t,
                Json::Object(
                    Seq::empty()
                        .push(("key"@, Json::Str(normalized_identifier(a.key@))))
                        .push(("size"@, Json::UInt(sent_size(a.size))))
                        .push(("required"@, Json::Bool(a.required)))
                        .push(("default"@, opt_json(a.default)))
                        .push(("array"@, Json::Bool(a.array)))
                        .push(("encrypt"@, Json::Bool(sent_flag(a.encrypt)))),
                ),
            ),
        )
    } else if t == "email"@ || t == "ip"@ || t == "url"@ || t == "boolean"@ || t == "datetime"@
        || t == "timestamptz"@ {
        Ok((t, Json::Object(common_create_fields(a))))
    } else if t == "enum"@ {
        if a.elements@.len() == 0 {
            Err(PayloadIssue::EnumWithoutElements)
        } else {
            Ok(
                (
                    t,
                    Json::Object(
                        common_create_fields(a).push(("elements"@, str_list_json(a.elements@))),
                    ),
                ),
            )
        }
    } else if t == "integer"@ || t == "float"@ {
        Ok(
            (
                t,
                Json::Object(
                    common_create_fields(a)
                        .push(("min"@, opt_number_json(a.min)))
                        .push(("max"@, opt_number_json(a.max))),
                ),
            ),
        )
    } else if t == "relationship"@ {
        Ok(
            (
                t,
                Json::Object(
                    Seq::empty()
                        .push(("key"@, Json::Str(normalized_identifier(a.key@))))
                        .push(("type"@, Json::Str(sent_text(a.relation_type, "manyToOne"@))))
                        .push(("onDelete"@, Json::Str(sent_text(a.on_delete, "restrict"@))))
                        .push(("relatedCollectionId"@, opt_str_json(a.related_collection_id)))
                        .push(("twoWay"@, Json::Bool(sent_flag(a.two_way))))
                        .push(("twoWayKey"@, opt_str_json(a.two_way_key))),
                ),
            ),
        )
    } else {
        Err(PayloadIssue::UnsupportedType)
    }
}

/// The fields that most attribute kinds share when updated.
pub open spec fn common_update_fields(a: AttributeSpec) -> Seq<(Seq<char>, Json)> {
    Seq::empty()
        .push(("new_key"@, opt_str_json(a.new_key)))
        .push(("required"@, Json::Bool(a.required)))
        .push(("default"@, opt_json(a.default)))
}

/// The body that updates an existing attribute on the server.
pub open spec fn update_attribute_payload_spec(a: AttributeSpec) -> Result<Json, PayloadIssue> {
    let t = a.attr_type@;
    if t == "string"@ {
        Ok(
            Json::Object(
                Seq::empty()
                    .push(("new_key"@, opt_str_json(a.new_key)))
                    .push(("size"@, Json::UInt(sent_size(a.size))))
                    .push(("required"@, Json::Bool(a.required)))
                    .push(("default"@, opt_json(a.default))),
            ),
        )
    } else if t == "email"@ || t == "ip"@ || t == "url"@ || t == "datetime"@ || t
        == "timestamptz"@ || t == "boolean"@ {
        Ok(Json::Object(common_update_fields(a)))
    } else if t == "enum"@ {
        Ok(Json::Object(common_update_fields(a).push(("elements"@, str_list_json(a.elements@)))))
    } else if t == "integer"@ || t == "float"@ {
        Ok(
            Json::Object(
                common_update_fields(a)
                    .push(("min"@, opt_number_json(a.min)))
                    .push(("max"@, opt_number_json(a.max))),
            ),
        )
    } else if t == "relationship"@ {
        Ok(
            Json::Object(
                Seq::empty()
                    .push(("new_key"@, opt_str_json(a.new_key)))
                    .push(("onDelete"@, opt_str_json(a.on_delete))),
            ),
        )
    } else {
        Err(PayloadIssue::UnsupportedType)
    }
}

fn common_create(a: &AttributeSpec) -> (fields: Vec<(String, JsonValue)>)
    ensures
        fields_json(fields@) == common_create_fields(*a),
{
    let key = normalize_identifier(a.key.as_str());
    let mut fields: Vec<(String, JsonValue)> = Vec::new();
    push_field(&mut fields, "key", JsonValue::Str(key));
    push_field(&mut fields, "required", JsonValue::Bool(a.required));
    push_field(&mut fields, "default", json_opt(&a.default));
    push_field(&mut fields, "array", JsonValue::Bool(a.array));
    proof {
        assert(fields_json(Seq::<(String, JsonValue)>::empty()) =~= Seq::empty());
    }
    fields
}

fn common_update(a: &AttributeSpec) -> (fields: Vec<(String, JsonValue)>)
    ensures
        fields_json(fields@) == common_update_fields(*a),
{
    let mut fields: Vec<(String, JsonValue)> = Vec::new();
    push_field(&mut fields, "new_key", json_opt_str(&a.new_key));
    push_field(&mut fields, "required", JsonValue::Bool(a.required));
    push_field(&mut fields, "default", json_opt(&a.default));
    proof {
        assert(fields_json(Seq::<(String, JsonValue)>::empty()) =~= Seq::empty());
    }
    fields
}

fn size_or_default(size: Option<u32>) -> (r: u64)
    ensures
        r == sent_size(size),
{
    match size {
        Some(n) => n as u64,
        None => 255,
    }
}

fn flag_or_false(flag: Option<bool>) -> (r: bool)
    ensures
        r == sent_flag(flag),
{
    match flag {
        Some(b) => b,
        None => false,
    }
}

fn str_or(o: &Option<String>, fallback: &str) -> (r: JsonValue)
    ensures
        r.json() == Json::Str(sent_text(*o, fallback@)),
{
    match o {
        Some(s) => json_str(s.as_str()),
        None => json_str(fallback),
    }
}

/// Builds the URL segment and body that create an attribute on the server.
pub fn create_attribute_payload(a: &AttributeSpec) -> (r: Result<(String, JsonValue), PayloadIssue>)
    ensures
        match r {
            Ok((typed, body)) => create_attribute_payload_spec(*a) == Ok::<
                (Seq<char>, Json),
                PayloadIssue,
            >((typed@, body.json())),
            Err(e) => create_attribute_payload_spec(*a) == Err::<(Seq<char>, Json), PayloadIssue>(
                e,
            ),
        },
{
    let t = a.attr_type.as_str();
    if str_eq(t, "string") {
        let key = normalize_identifier(a.key.as_str());
        let mut fields: Vec<(String, JsonValue)> = Vec::new();
        push_field(&mut fields, "key", JsonValue::Str(key));
        push_field(&mut fields, "size", JsonValue::UInt(size_or_default(a.size)));
        push_field(&mut fields, "required", JsonValue::Bool(a.required));
        push_field(&mut fields, "default", json_opt(&a.default));
        push_field(&mut fields, "array", JsonValue::Bool(a.array));
        push_field(&mut fields, "encrypt", JsonValue::Bool(flag_or_false(a.encrypt)));
        proof {
            assert(fields_json(Seq::<(String, JsonValue)>::empty()) =~= Seq::empty());
        }
        Ok((owned(t), object(fields)))
    } else if str_eq(t, "email") || str_eq(t, "ip") || str_eq(t, "url") || str_eq(t, "boolean")
        || str_eq(t, "datetime") || str_eq(t, "timestamptz") {
        Ok((owned(t), object(common_create(a))))
    } else if str_eq(t, "enum") {
        if a.elements.len() == 0 {
            Err(PayloadIssue::EnumWithoutElements)
        } else {
            let mut fields = common_create(a);
            push_field(&mut fields, "elements", json_str_list(&a.elements));
            Ok((owned(t), object(fields)))
        }
    } else if str_eq(t, "integer") || str_eq(t, "float") {
        let mut fields = common_create(a);
        push_field(&mut fields, "min", json_opt_number(&a.min));
        push_field(&mut fields, "max", json_opt_number(&a.max));
        Ok((owned(t), object(fields)))
    } else if str_eq(t, "relationship") {
        let key = normalize_identifier(a.key.as_str());
        let mut fields: Vec<(String, JsonValue)> = Vec::new();
        push_field(&mut fields, "key", JsonValue::Str(key));
        push_field(&mut fields, "type", str_or(&a.relation_type, "manyToOne"));
        push_field(&mut fields, "onDelete", str_or(&a.on_delete, "restrict"));
        push_field(&mut fields, "relatedCollectionId", json_opt_str(&a.related_collection_id));
        push_field(&mut fields, "twoWay", JsonValue::Bool(flag_or_false(a.two_way)));
        push_field(&mut fields, "twoWayKey", json_opt_str(&a.two_way_key));
        proof {
            assert(fields_json(Seq::<(String, JsonValue)>::empty()) =~= Seq::empty());
        }
        Ok((owned(t), object(fields)))
    } else {
        Err(PayloadIssue::UnsupportedType)
    }
}

/// Builds the body that updates an existing attribute on the server.
pub fn update_attribute_payload(a: &AttributeSpec) -> (r: Result<JsonValue, PayloadIssue>)
    ensures
        match r {
            Ok(body) => update_attribute_payload_spec(*a) == Ok::<Json, PayloadIssue>(body.json()),
            Err(e) => update_attribute_payload_spec(*a) == Err::<Json, PayloadIssue>(e),
        },
{
    let t = a.attr_type.as_str();
    if str_eq(t, "string") {
        let mut fields: Vec<(String, JsonValue)> = Vec::new();
        push_field(&mut fields, "new_key", json_opt_str(&a.new_key));
        push_field(&mut fields, "size", JsonValue::UInt(size_or_default(a.size)));
        push_field(&mut fields, "required", JsonValue::Bool(a.required));
        push_field(&mut fields, "default", json_opt(&a.default));
        proof {
            assert(fields_json(Seq::<(String, JsonValue)>::empty()) =~= Seq::empty());
        }
        Ok(object(fields))
    } else if str_eq(t, "email") || str_eq(t, "ip") || str_eq(t, "url") || str_eq(t, "datetime")
        || str_eq(t, "timestamptz") || str_eq(t, "boolean") {
        Ok(object(common_update(a)))
    } else if str_eq(t, "enum") {
        let mut fields = common_update(a);
        push_field(&mut fields, "elements", json_str_list(&a.elements));
        Ok(object(fields))
    } else if str_eq(t, "integer") || str_eq(t, "float") {
        let mut fields = common_update(a);
        push_field(&mut fields, "min", json_opt_number(&a.min));
        push_field(&mut fields, "max", json_opt_number(&a.max));
        Ok(object(fields))
    } else if str_eq(t, "relationship") {
        let mut fields: Vec<(String, JsonValue)> = Vec::new();
        push_field(&mut fields, "new_key", json_opt_str(&a.new_key));
        push_field(&mut fields, "onDelete", json_opt_str(&a.on_delete));
        proof {
            assert(fields_json(Seq::<(String, JsonValue)>::empty()) =~= Seq::empty());
        }
        Ok(object(fields))
    } else {
        Err(PayloadIssue::UnsupportedType)
    }
}

/// Whether the fields of a body hold `key` with `value`.
pub open spec fn carries(fields: Seq<(Seq<char>, Json)>, key: Seq<char>, value: Json) -> bool {
    fields.contains((key, value))
}

/// Whether a result is a body whose fields hold `key` with `value`.
pub open spec fn body_carries(r: Result<Json, PayloadIssue>, key: Seq<char>, value: Json) -> bool {
    r matches Ok(Json::Object(fs)) && carries(fs, key, value)
}

/// Whether a result is a body that carries the fields every attribute but a
/// relationship is updated with: the new key, whether it is required, and its
/// default.
pub open spec fn carries_common_update(r: Result<Json, PayloadIssue>, a: AttributeSpec) -> bool {
    &&& body_carries(r, "new_key"@, opt_str_json(a.new_key))
    &&& body_carries(r, "required"@, Json::Bool(a.required))
    &&& body_carries(r, "default"@, opt_json(a.default))
}

proof fn lemma_carries_push(fs: Seq<(Seq<char>, Json)>, x: (Seq<char>, Json), k: Seq<char>, v: Json)
    ensures
        carries(fs, k, v) ==> carries(fs.push(x), k, v),
        carries(fs.push(x), x.0, x.1),
{
    if carries(fs, k, v) {
        let i = choose|i: int| 0 <= i < fs.len() && fs[i] == (k, v);
        assert(fs.push(x)[i] == (k, v));
    }
    assert(fs.push(x)[fs.len() as int] == x);
}

proof fn lemma_common_update(a: AttributeSpec)
    ensures
        carries(common_update_fields(a), "new_key"@, opt_str_json(a.new_key)),
        carries(common_update_fields(a), "required"@, Json::Bool(a.required)),
        carries(common_update_fields(a), "default"@, opt_json(a.default)),
{
    let f = common_update_fields(a);
    assert(f[0] == ("new_key"@, opt_str_json(a.new_key)));
    assert(f[1] == ("required"@, Json::Bool(a.required)));
    assert(f[2] == ("default"@, opt_json(a.default)));
}

/// Law: what the body that updates an attribute carries, by its type. Every
/// type but a relationship carries the new key, whether the attribute is
/// required and its default; a string also its size; an enum also its
/// elements; an integer or a float also its bounds; a relationship carries
/// the new key and what happens on delete. Any other type is refused.
pub proof fn law_update_payload_fields(a: AttributeSpec)
    ensures
        ({
            let t = a.attr_type@;
            let r = update_attribute_payload_spec(a);
            &&& (t == "string"@ ==> carries_common_update(r, a) && body_carries(
                r,
                "size"@,
                Json::UInt(sent_size(a.size)),
            ))
            &&& (t == "email"@ || t == "ip"@ || t == "url"@ || t == "datetime"@ || t
                == "timestamptz"@ || t == "boolean"@ ==> carries_common_update(r, a))
            &&& (t == "enum"@ ==> carries_common_update(r, a) && body_carries(
                r,
                "elements"@,
                str_list_json(a.elements@),
            ))
            &&& (t == "integer"@ || t == "float"@ ==> carries_common_update(r, a) && body_carries(
                r,
                "min"@,
                opt_number_json(a.min),
            ) && body_carries(r, "max"@, opt_number_json(a.max)))
            &&& (t == "relationship"@ ==> body_carries(r, "new_key"@, opt_str_json(a.new_key))
                && body_carries(r, "onDelete"@, opt_str_json(a.on_delete)))
            &&& (!(t == "string"@ || t == "email"@ || t == "ip"@ || t == "url"@ || t == "datetime"@
                || t == "timestamptz"@ || t == "boolean"@ || t == "enum"@ || t == "integer"@ || t
                == "float"@ || t == "relationship"@) ==> r == Err::<Json, PayloadIssue>(
                PayloadIssue::UnsupportedType,
            ))
        }),
{
    reveal_strlit("string");
    reveal_strlit("email");
    reveal_strlit("ip");
    reveal_strlit("url");
    reveal_strlit("datetime");
    reveal_strlit("timestamptz");
    reveal_strlit("boolean");
    reveal_strlit("enum");
    reveal_strlit("integer");
    reveal_strlit("float");
    reveal_strlit("relationship");
    reveal_strlit("new_key");
    reveal_strlit("required");
    reveal_strlit("default");
    reveal_strlit("size");
    reveal_strlit("elements");
    reveal_strlit("min");
    reveal_strlit("max");
    reveal_strlit("onDelete");
    reveal_strlit("key");
    reveal_strlit("array");
    reveal_strlit("encrypt");
    reveal_strlit("type");
    reveal_strlit("relatedCollectionId");
    reveal_strlit("twoWay");
    reveal_strlit("twoWayKey");
    assert("string"@.len() == 6 && "string"@[0] == 's');
    assert("email"@.len() == 5 && "email"@[0] == 'e');
    assert("ip"@.len() == 2 && "ip"@[0] == 'i');
    assert("url"@.len() == 3 && "url"@[0] == 'u');
    assert("datetime"@.len() == 8 && "datetime"@[0] == 'd');
    assert("timestamptz"@.len() == 11 && "timestamptz"@[0] == 't');
    assert("boolean"@.len() == 7 && "boolean"@[0] == 'b');
    assert("enum"@.len() == 4 && "enum"@[0] == 'e');
    assert("integer"@.len() == 7 && "integer"@[0] == 'i');
    assert("float"@.len() == 5 && "float"@[0] == 'f');
    assert("relationship"@.len() == 12 && "relationship"@[0] == 'r');
    let t = a.attr_type@;
    let c = common_update_fields(a);
    lemma_common_update(a);
    if t == "string"@ {
        let f = Seq::<(Seq<char>, Json)>::empty().push(("new_key"@, opt_str_json(a.new_key))).push(
            ("size"@, Json::UInt(sent_size(a.size))),
        ).push(("required"@, Json::Bool(a.required))).push(("default"@, opt_json(a.default)));
        assert(update_attribute_payload_spec(a) == Ok::<Json, PayloadIssue>(Json::Object(f)));
        assert(f[0] == ("new_key"@, opt_str_json(a.new_key)));
        assert(f[1] == ("size"@, Json::UInt(sent_size(a.size))));
        assert(f[2] == ("required"@, Json::Bool(a.required)));
        assert(f[3] == ("default"@, opt_json(a.default)));
        assert(carries(f, "new_key"@, opt_str_json(a.new_key)));
        assert(carries(f, "size"@, Json::UInt(sent_size(a.size))));
        assert(carries(f, "required"@, Json::Bool(a.required)));
        assert(carries(f, "default"@, opt_json(a.default)));
    } else if t == "enum"@ {
        let x = ("elements"@, str_list_json(a.elements@));
        lemma_carries_push(c, x, "new_key"@, opt_str_json(a.new_key));
        lemma_carries_push(c, x, "required"@, Json::Bool(a.required));
        lemma_carries_push(c, x, "default"@, opt_json(a.default));
        assert(update_attribute_payload_spec(a) == Ok::<Json, PayloadIssue>(Json::Object(c.push(x))));
        assert(carries(c.push(x), "elements"@, str_list_json(a.elements@)));
    } else if t == "integer"@ || t == "float"@ {
        let x = ("min"@, opt_number_json(a.min));
        let y = ("max"@, opt_number_json(a.max));
        lemma_carries_push(c, x, "new_key"@, opt_str_json(a.new_key));
        lemma_carries_push(c, x, "required"@, Json::Bool(a.required));
        lemma_carries_push(c, x, "default"@, opt_json(a.default));
        let c1 = c.push(x);
        lemma_carries_push(c1, y, "new_key"@, opt_str_json(a.new_key));
        lemma_carries_push(c1, y, "required"@, Json::Bool(a.required));
        lemma_carries_push(c1, y, "default"@, opt_json(a.default));
        lemma_carries_push(c1, y, "min"@, opt_number_json(a.min));
        assert(update_attribute_payload_spec(a) == Ok::<Json, PayloadIssue>(
            Json::Object(c1.push(y)),
        ));
        assert(carries(c1.push(y), "max"@, opt_number_json(a.max)));
    } else if t == "relationship"@ {
        let f = Seq::<(Seq<char>, Json)>::empty().push(("new_key"@, opt_str_json(a.new_key))).push(
            ("onDelete"@, opt_str_json(a.on_delete)),
        );
        assert(f[0] == ("new_key"@, opt_str_json(a.new_key)));
        assert(f[1] == ("onDelete"@, opt_str_json(a.on_delete)));
        assert(carries(f, "new_key"@, opt_str_json(a.new_key)));
        assert(carries(f, "onDelete"@, opt_str_json(a.on_delete)));
    }
}

/// Whether a result is a URL segment and body whose fields hold `key` with
/// `value`.
pub open spec fn create_carries(
    r: Result<(Seq<char>, Json), PayloadIssue>,
    key: Seq<char>,
    value: Json,
) -> bool {
    r matches Ok((_, Json::Object(fs))) && carries(fs, key, value)
}

/// Whether a result carries the fields that every attribute but a
/// relationship is created with, under the URL segment `t`.
pub open spec fn carries_common_create(
    r: Result<(Seq<char>, Json), PayloadIssue>,
    a: AttributeSpec,
    t: Seq<char>,
) -> bool {
    &&& r matches Ok((seg, _)) && seg == t
    &&& create_carries(r, "key"@, Json::Str(normalized_identifier(a.key@)))
    &&& create_carries(r, "required"@, Json::Bool(a.required))
    &&& create_carries(r, "default"@, opt_json(a.default))
    &&& create_carries(r, "array"@, Json::Bool(a.array))
}

/// Every field of a body is carried by it.
pub proof fn lemma_carries_all(fs: Seq<(Seq<char>, Json)>)
    ensures
        forall|i: int| 0 <= i < fs.len() ==> #[trigger] carries(fs, fs[i].0, fs[i].1),
{
    assert forall|i: int| 0 <= i < fs.len() implies #[trigger] carries(fs, fs[i].0, fs[i].1) by {
        assert(fs[i] == (fs[i].0, fs[i].1));
    }
}

/// Law: what the request that creates an attribute carries, by its type. It
/// is sent under the attribute's type. Every type but a relationship carries
/// the normalized key, whether the attribute is required, its default and
/// whether it is an array; a string also its size and whether it is
/// encrypted; an enum, which needs elements, also its elements; an integer or
/// a float also its bounds. A relationship carries its key, its kind, what
/// happens on delete, the related collection and its two-way settings. Any
/// other type is refused.
pub proof fn law_create_payload_fields(a: AttributeSpec)
    ensures
        ({
            let t = a.attr_type@;
            let r = create_attribute_payload_spec(a);
            &&& (t == "string"@ ==> carries_common_create(r, a, t) && create_carries(
                r,
                "size"@,
                Json::UInt(sent_size(a.size)),
            ) && create_carries(r, "encrypt"@, Json::Bool(sent_flag(a.encrypt))))
            &&& (t == "email"@ || t == "ip"@ || t == "url"@ || t == "datetime"@ || t
                == "timestamptz"@ || t == "boolean"@ ==> carries_common_create(r, a, t))
            &&& (t == "enum"@ && a.elements@.len() == 0 ==> r == Err::<(Seq<char>, Json), PayloadIssue>(
                PayloadIssue::EnumWithoutElements,
            ))
            &&& (t == "enum"@ && a.elements@.len() > 0 ==> carries_common_create(r, a, t)
                && create_carries(r, "elements"@, str_list_json(a.elements@)))
            &&& (t == "integer"@ || t == "float"@ ==> carries_common_create(r, a, t)
                && create_carries(r, "min"@, opt_number_json(a.min)) && create_carries(
                r,
                "max"@,
                opt_number_json(a.max),
            ))
            &&& (t == "relationship"@ ==> (r matches Ok((seg, _)) && seg == t) && create_carries(
                r,
                "key"@,
                Json::Str(normalized_identifier(a.key@)),
            ) && create_carries(r, "type"@, Json::Str(sent_text(a.relation_type, "manyToOne"@)))
                && create_carries(r, "onDelete"@, Json::Str(sent_text(a.on_delete, "restrict"@)))
                && create_carries(r, "relatedCollectionId"@, opt_str_json(a.related_collection_id))
                && create_carries(r, "twoWay"@, Json::Bool(sent_flag(a.two_way)))
                && create_carries(r, "twoWayKey"@, opt_str_json(a.two_way_key)))
            &&& (!(t == "string"@ || t == "email"@ || t == "ip"@ || t == "url"@ || t == "datetime"@
                || t == "timestamptz"@ || t == "boolean"@ || t == "enum"@ || t == "integer"@ || t
                == "float"@ || t == "relationship"@) ==> r == Err::<(Seq<char>, Json), PayloadIssue>(
                PayloadIssue::UnsupportedType,
            ))
        }),
{
    reveal_strlit("string");
    reveal_strlit("email");
    reveal_strlit("ip");
    reveal_strlit("url");
    reveal_strlit("datetime");
    reveal_strlit("timestamptz");
    reveal_strlit("boolean");
    reveal_strlit("enum");
    reveal_strlit("integer");
    reveal_strlit("float");
    reveal_strlit("relationship");
    reveal_strlit("key");
    reveal_strlit("required");
    reveal_strlit("default");
    reveal_strlit("size");
    reveal_strlit("elements");
    reveal_strlit("min");
    reveal_strlit("max");
    reveal_strlit("onDelete");
    reveal_strlit("array");
    reveal_strlit("encrypt");
    reveal_strlit("type");
    reveal_strlit("relatedCollectionId");
    reveal_strlit("twoWay");
    reveal_strlit("twoWayKey");
    assert("string"@.len() == 6 && "string"@[0] == 's');
    assert("email"@.len() == 5 && "email"@[0] == 'e');
    assert("ip"@.len() == 2 && "ip"@[0] == 'i');
    assert("url"@.len() == 3 && "url"@[0] == 'u');
    assert("datetime"@.len() == 8 && "datetime"@[0] == 'd');
    assert("timestamptz"@.len() == 11 && "timestamptz"@[0] == 't');
    assert("boolean"@.len() == 7 && "boolean"@[0] == 'b');
    assert("enum"@.len() == 4 && "enum"@[0] == 'e');
    assert("integer"@.len() == 7 && "integer"@[0] == 'i');
    assert("float"@.len() == 5 && "float"@[0] == 'f');
    assert("relationship"@.len() == 12 && "relationship"@[0] == 'r');
    let t = a.attr_type@;
    let c = common_create_fields(a);
    lemma_carries_all(c);
    assert(c[0].0 == "key"@ && c[1].0 == "required"@ && c[2].0 == "default"@ && c[3].0 == "array"@);
    if t == "string"@ {
        let f = Seq::<(Seq<char>, Json)>::empty().push(
            ("key"@, Json::Str(normalized_identifier(a.key@))),
        ).push(("size"@, Json::UInt(sent_size(a.size)))).push(
            ("required"@, Json::Bool(a.required)),
        ).push(("default"@, opt_json(a.default))).push(("array"@, Json::Bool(a.array))).push(
            ("encrypt"@, Json::Bool(sent_flag(a.encrypt))),
        );
        assert(create_attribute_payload_spec(a) == Ok::<(Seq<char>, Json), PayloadIssue>(
            (t, Json::Object(f)),
        ));
        lemma_carries_all(f);
        assert(f[0].0 == "key"@ && f[1].0 == "size"@ && f[2].0 == "required"@ && f[3].0
            == "default"@ && f[4].0 == "array"@ && f[5].0 == "encrypt"@);
    } else if t == "email"@ || t == "ip"@ || t == "url"@ || t == "datetime"@ || t
        == "timestamptz"@ || t == "boolean"@ {
        assert(create_attribute_payload_spec(a) == Ok::<(Seq<char>, Json), PayloadIssue>(
            (t, Json::Object(c)),
        ));
    } else if t == "enum"@ {
        if a.elements@.len() > 0 {
            let f = c.push(("elements"@, str_list_json(a.elements@)));
            assert(create_attribute_payload_spec(a) == Ok::<(Seq<char>, Json), PayloadIssue>(
                (t, Json::Object(f)),
            ));
            lemma_carries_all(f);
            assert(f[0] == c[0] && f[1] == c[1] && f[2] == c[2] && f[3] == c[3] && f[4].0
                == "elements"@);
        }
    } else if t == "integer"@ || t == "float"@ {
        let f = c.push(("min"@, opt_number_json(a.min))).push(("max"@, opt_number_json(a.max)));
        assert(create_attribute_payload_spec(a) == Ok::<(Seq<char>, Json), PayloadIssue>(
            (t, Json::Object(f)),
        ));
        lemma_carries_all(f);
        assert(f[0] == c[0] && f[1] == c[1] && f[2] == c[2] && f[3] == c[3] && f[4].0 == "min"@
            && f[5].0 == "max"@);
    } else if t == "relationship"@ {
        let f = Seq::<(Seq<char>, Json)>::empty().push(
            ("key"@, Json::Str(normalized_identifier(a.key@))),
        ).push(("type"@, Json::Str(sent_text(a.relation_type, "manyToOne"@)))).push(
            ("onDelete"@, Json::Str(sent_text(a.on_delete, "restrict"@))),
        ).push(("relatedCollectionId"@, opt_str_json(a.related_collection_id))).push(
            ("twoWay"@, Json::Bool(sent_flag(a.two_way))),
        ).push(("twoWayKey"@, opt_str_json(a.two_way_key)));
        assert(create_attribute_payload_spec(a) == Ok::<(Seq<char>, Json), PayloadIssue>(
            (t, Json::Object(f)),
        ));
        lemma_carries_all(f);
        assert(f[0].0 == "key"@ && f[1].0 == "type"@ && f[2].0 == "onDelete"@ && f[3].0
            == "relatedCollectionId"@ && f[4].0 == "twoWay"@ && f[5].0 == "twoWayKey"@);
    }
}

} // verus!
