use nuvix::edit::{
    add_collection, add_index, apply_attribute_defaults_for_type, attribute_kind,
    check_new_attribute, check_new_index, ensure_index_attributes_exist, find_collection,
    index_orders, new_attribute, on_delete_name, push_attribute, relation_name,
    remove_collection, AttributeAnswers, AttributeKind, EditError,
};
use nuvix::json::JsonValue;
use nuvix::payload::{create_attribute_payload, update_attribute_payload, PayloadIssue};
use nuvix::remote::{
    normalize_string_list, remote_attribute_to_local, remote_index_to_local, RemoteAttribute,
    RemoteCollection, RemoteIndex,
};
use nuvix::schema::{
    validate_schema_file, AttributeSpec, CollectionSpec, DocumentSchemaFile, IndexSpec,
    SchemaIssue, SchemaSpec,
};
use nuvix::sync::{
    normalized_orders, plan_attribute_sync, plan_collection_step, plan_index_sync,
    stale_collections, stale_deletion, stale_keys, IndexChange,
};

fn render(v: &JsonValue) -> String {
    match v {
        JsonValue::Null => "null".to_string(),
        JsonValue::Bool(b) => b.to_string(),
        JsonValue::UInt(n) => n.to_string(),
        JsonValue::Number(s) => s.clone(),
        JsonValue::Str(s) => format!("{:?}", s),
        JsonValue::Array(items) => {
            let parts: Vec<String> = items.iter().map(render).collect();
            format!("[{}]", parts.join(","))
        }
        JsonValue::Object(fields) => {
            let parts: Vec<String> = fields
                .iter()
                .map(|(k, v)| format!("{:?}:{}", k, render(v)))
                .collect();
            format!("{{{}}}", parts.join(","))
        }
    }
}

fn strings(v: &[&str]) -> Vec<String> {
    v.iter().map(|s| s.to_string()).collect()
}

fn attr(key: &str, ty: &str) -> AttributeSpec {
    new_attribute(key.to_string(), ty.to_string(), false, false, None, None, &vec![])
}

fn index(key: &str, attributes: &[&str], orders: &[&str]) -> IndexSpec {
    IndexSpec {
        key: key.to_string(),
        index_type: "key".to_string(),
        attributes: strings(attributes),
        orders: strings(orders),
        status: None,
        error: None,
    }
}

fn collection(id: &str, attributes: Vec<AttributeSpec>, indexes: Vec<IndexSpec>) -> CollectionSpec {
    CollectionSpec {
        id: id.to_string(),
        name: id.to_string(),
        enabled: true,
        document_security: false,
        permissions: vec![],
        attributes,
        indexes,
    }
}

fn schema_file(collections: Vec<CollectionSpec>) -> DocumentSchemaFile {
    DocumentSchemaFile {
        schema: SchemaSpec {
            id: "blog".to_string(),
            name: "Blog".to_string(),
            description: None,
            schema_type: "document".to_string(),
        },
        collections,
    }
}

fn answers() -> AttributeAnswers {
    AttributeAnswers {
        string_size: 0,
        encrypt: true,
        elements: strings(&["a", "b"]),
        min: Some("1".to_string()),
        max: None,
        related_collection_id: "users".to_string(),
        relation: 1,
        on_delete: 2,
        two_way: true,
        two_way_key: Some("posts".to_string()),
    }
}

fn remote_attr(key: &str, ty: &str, format: Option<&str>) -> RemoteAttribute {
    RemoteAttribute {
        key: key.to_string(),
        attr_type: ty.to_string(),
        format: format.map(|f| f.to_string()),
        required: true,
        array: false,
        size: Some(10),
        min: None,
        max: None,
        default: None,
        elements: vec![],
        related_collection_id: None,
        relation_type: None,
        two_way: None,
        two_way_key: None,
        on_delete: None,
        status: Some("available".to_string()),
        error: None,
    }
}

fn remote_index(key: &str, attributes: &[&str], orders: &[&str]) -> RemoteIndex {
    RemoteIndex {
        key: key.to_string(),
        index_type: "key".to_string(),
        attributes: strings(attributes),
        orders: strings(orders),
        status: None,
        error: None,
    }
}

fn remote_collection(id: &str, name: &str) -> RemoteCollection {
    RemoteCollection {
        id: id.to_string(),
        name: name.to_string(),
        enabled: true,
        document_security: false,
        permissions: vec![],
    }
}

#[test]
fn valid_schema_file_passes() {
    let f = schema_file(vec![collection(
        "posts",
        vec![attr("title", "string")],
        vec![index("by_title", &["title"], &["ASC"])],
    )]);
    assert_eq!(validate_schema_file(&f), Ok(()));
}

#[test]
fn schema_issues_in_order() {
    let mut f = schema_file(vec![]);
    f.schema.schema_type = "sql".to_string();
    assert_eq!(validate_schema_file(&f), Err(SchemaIssue::SchemaTypeNotDocument));

    let mut f = schema_file(vec![]);
    f.schema.id = "  ".to_string();
    assert_eq!(validate_schema_file(&f), Err(SchemaIssue::SchemaIdInvalid));

    let f = schema_file(vec![collection("!!", vec![], vec![])]);
    assert_eq!(
        validate_schema_file(&f),
        Err(SchemaIssue::CollectionIdInvalid { collection: 0 })
    );

    let f = schema_file(vec![collection("Posts", vec![], vec![]), collection("posts", vec![], vec![])]);
    assert_eq!(
        validate_schema_file(&f),
        Err(SchemaIssue::DuplicateCollection { collection: 1 })
    );

    let f = schema_file(vec![collection("p", vec![attr("", "string")], vec![])]);
    assert_eq!(
        validate_schema_file(&f),
        Err(SchemaIssue::InvalidAttributeKey { collection: 0 })
    );

    let f = schema_file(vec![collection("p", vec![attr("a", "string"), attr("A", "string")], vec![])]);
    assert_eq!(
        validate_schema_file(&f),
        Err(SchemaIssue::DuplicateAttribute { collection: 0, attribute: 1 })
    );

    let f = schema_file(vec![collection("p", vec![attr("a", "enum")], vec![])]);
    assert_eq!(
        validate_schema_file(&f),
        Err(SchemaIssue::EnumWithoutElements { collection: 0, attribute: 0 })
    );

    let mut a = attr("a", "string");
    a.required = true;
    a.default = Some(JsonValue::Str("x".to_string()));
    let f = schema_file(vec![collection("p", vec![a], vec![])]);
    assert_eq!(
        validate_schema_file(&f),
        Err(SchemaIssue::RequiredWithDefault { collection: 0, attribute: 0 })
    );

    let f = schema_file(vec![collection("p", vec![attr("a", "string")], vec![index("", &["a"], &[])])]);
    assert_eq!(
        validate_schema_file(&f),
        Err(SchemaIssue::InvalidIndexKey { collection: 0 })
    );

    let f = schema_file(vec![collection(
        "p",
        vec![attr("a", "string")],
        vec![index("i", &["a"], &[]), index("I", &["a"], &[])],
    )]);
    assert_eq!(
        validate_schema_file(&f),
        Err(SchemaIssue::DuplicateIndex { collection: 0, index: 1 })
    );

    let f = schema_file(vec![collection("p", vec![attr("a", "string")], vec![index("i", &[], &[])])]);
    assert_eq!(
        validate_schema_file(&f),
        Err(SchemaIssue::IndexWithoutAttributes { collection: 0, index: 0 })
    );

    let f = schema_file(vec![collection(
        "p",
        vec![attr("a", "string")],
        vec![index("i", &["a", "zz"], &[])],
    )]);
    assert_eq!(
        validate_schema_file(&f),
        Err(SchemaIssue::UnknownIndexAttribute { collection: 0, index: 0, reference: 1 })
    );

    let f = schema_file(vec![collection(
        "p",
        vec![attr("a", "string")],
        vec![index("i", &["a"], &["ASC", "DESC"])],
    )]);
    assert_eq!(
        validate_schema_file(&f),
        Err(SchemaIssue::IndexOrdersMismatch { collection: 0, index: 0 })
    );
}

#[test]
fn string_attribute_payloads() {
    let mut a = attr("Title", "string");
    a.size = Some(80);
    let (typed, body) = create_attribute_payload(&a).ok().unwrap();
    assert_eq!(typed, "string");
    assert_eq!(
        render(&body),
        r#"{"key":"title","size":80,"required":false,"default":null,"array":false,"encrypt":false}"#
    );
    let body = update_attribute_payload(&a).ok().unwrap();
    assert_eq!(
        render(&body),
        r#"{"new_key":null,"size":80,"required":false,"default":null}"#
    );
}

#[test]
fn other_attribute_payloads() {
    let mut a = attr("n", "integer");
    a.min = Some("1.5".to_string());
    let (_, body) = create_attribute_payload(&a).ok().unwrap();
    assert_eq!(
        render(&body),
        r#"{"key":"n","required":false,"default":null,"array":false,"min":1.5,"max":null}"#
    );
    let mut e = attr("state", "enum");
    e.elements = strings(&["open", "closed"]);
    let (_, body) = create_attribute_payload(&e).ok().unwrap();
    assert_eq!(
        render(&body),
        r#"{"key":"state","required":false,"default":null,"array":false,"elements":["open","closed"]}"#
    );
    let r = attr("author", "relationship");
    let (typed, body) = create_attribute_payload(&r).ok().unwrap();
    assert_eq!(typed, "relationship");
    assert_eq!(
        render(&body),
        r#"{"key":"author","type":"manyToOne","onDelete":"restrict","relatedCollectionId":null,"twoWay":false,"twoWayKey":null}"#
    );
}

#[test]
fn attribute_payload_errors() {
    assert_eq!(
        create_attribute_payload(&attr("e", "enum")).err(),
        Some(PayloadIssue::EnumWithoutElements)
    );
    assert_eq!(
        create_attribute_payload(&attr("x", "geo")).err(),
        Some(PayloadIssue::UnsupportedType)
    );
}

#[test]
fn remote_conversions() {
    let local = remote_attribute_to_local(remote_attr(" My Key ", "string", Some("email")));
    assert_eq!(local.key, "my_key");
    assert_eq!(local.attr_type, "email");
    assert_eq!(local.size, Some(10));
    let local = remote_attribute_to_local(remote_attr("k", "integer", Some("email")));
    assert_eq!(local.attr_type, "integer");
    let idx = remote_index_to_local(remote_index("By Name", &["First Name", "  "], &["ASC"]));
    assert_eq!(idx.key, "by_name");
    assert_eq!(idx.attributes, strings(&["first_name"]));
    assert_eq!(
        normalize_string_list(&strings(&["A b", "", "--", "c"])),
        strings(&["a_b", "c"])
    );
}

#[test]
fn add_and_remove_collections() {
    let mut f = schema_file(vec![collection("posts", vec![], vec![])]);
    assert!(matches!(
        add_collection(&mut f, "posts", "Posts".to_string(), false),
        Err(EditError::CollectionExists { .. })
    ));
    assert!(add_collection(&mut f, "users", "Users".to_string(), true).is_ok());
    assert_eq!(find_collection(&f, "users"), Some(1));
    assert!(f.collections[1].enabled && f.collections[1].document_security);
    assert!(remove_collection(&mut f, "posts").is_ok());
    assert_eq!(find_collection(&f, "posts"), None);
    assert_eq!(f.collections.len(), 1);
    assert!(matches!(
        remove_collection(&mut f, "posts"),
        Err(EditError::CollectionNotFound { .. })
    ));
}

#[test]
fn add_attribute_checks() {
    let mut f = schema_file(vec![collection("posts", vec![attr("title", "string")], vec![])]);
    assert!(matches!(
        check_new_attribute(&f, "nope", "x"),
        Err(EditError::CollectionNotFound { .. })
    ));
    assert!(matches!(
        check_new_attribute(&f, "posts", "title"),
        Err(EditError::AttributeExists { .. })
    ));
    let p = check_new_attribute(&f, "posts", "body").ok().unwrap();
    push_attribute(&mut f, p, attr("body", "string"));
    assert_eq!(f.collections[0].attributes.len(), 2);
}

#[test]
fn add_index_checks() {
    let mut f = schema_file(vec![collection(
        "posts",
        vec![attr("title", "string"), attr("body", "string")],
        vec![index("by_title", &["title"], &[])],
    )]);
    assert!(matches!(
        check_new_index(&f, "posts", "by_title"),
        Err(EditError::IndexExists { .. })
    ));
    let p = check_new_index(&f, "posts", "by_body").ok().unwrap();
    assert!(matches!(
        add_index(&mut f, p, "x".to_string(), "key".to_string(), &vec![], &vec![]),
        Err(EditError::IndexNeedsAttribute)
    ));
    assert!(matches!(
        add_index(&mut f, p, "x".to_string(), "key".to_string(), &strings(&["nope"]), &vec![]),
        Err(EditError::AttributeNotInCollection { .. })
    ));
    assert!(matches!(
        add_index(&mut f, p, "x".to_string(), "key".to_string(), &strings(&["body"]), &strings(&["ASC", "DESC"])),
        Err(EditError::OrdersCountMismatch)
    ));
    assert!(add_index(&mut f, p, "by_body".to_string(), "unique".to_string(), &strings(&["Body", "title"]), &vec![]).is_ok());
    let idx = f.collections[0].indexes.last().unwrap();
    assert_eq!(idx.attributes, strings(&["body", "title"]));
    assert_eq!(idx.orders, strings(&["ASC", "ASC"]));
    assert!(ensure_index_attributes_exist(&f.collections[0], &strings(&["title"])).is_ok());
    assert_eq!(index_orders(&vec![], 2).ok().unwrap(), strings(&["ASC", "ASC"]));
}

#[test]
fn attribute_defaults_by_type() {
    assert_eq!(attribute_kind("float").ok(), Some(AttributeKind::Numeric));
    assert!(matches!(
        attribute_kind("geo"),
        Err(EditError::UnsupportedAttributeType { .. })
    ));
    assert_eq!(relation_name(2), "manyToOne");
    assert_eq!(on_delete_name(0), "restrict");

    let mut s = attr("t", "string");
    apply_attribute_defaults_for_type(&mut s, answers()).ok().unwrap();
    assert_eq!(s.size, Some(1));
    assert_eq!(s.encrypt, Some(true));

    let mut e = attr("e", "enum");
    apply_attribute_defaults_for_type(&mut e, answers()).ok().unwrap();
    assert_eq!(e.elements, strings(&["a", "b"]));

    let mut r = attr("r", "relationship");
    apply_attribute_defaults_for_type(&mut r, answers()).ok().unwrap();
    assert_eq!(r.related_collection_id.as_deref(), Some("users"));
    assert_eq!(r.relation_type.as_deref(), Some("oneToMany"));
    assert_eq!(r.on_delete.as_deref(), Some("setNull"));
    assert_eq!(r.two_way, Some(true));
    assert_eq!(r.two_way_key.as_deref(), Some("posts"));

    let mut m = attr("m", "email");
    apply_attribute_defaults_for_type(&mut m, answers()).ok().unwrap();
    assert_eq!(m.format.as_deref(), Some("email"));

    let mut n = attr("n", "integer");
    apply_attribute_defaults_for_type(&mut n, answers()).ok().unwrap();
    assert_eq!((n.min.as_deref(), n.max.as_deref()), (Some("1"), None));

    let mut g = attr("g", "geo");
    assert!(apply_attribute_defaults_for_type(&mut g, answers()).is_err());
    assert_eq!(g.attr_type, "geo");
}

#[test]
fn stale_keys_are_sorted_and_unique() {
    assert_eq!(
        stale_keys(&strings(&["c", "a", "b", "a"]), &strings(&["b"])),
        strings(&["a", "c"])
    );
}

#[test]
fn attribute_sync_plan() {
    let mut t = attr("title", "string");
    t.size = Some(20);
    let plan = plan_attribute_sync(&vec![t, attr("views", "integer")], &strings(&["Title", "old"]));
    assert!(plan.failure.is_none());
    assert_eq!(plan.actions.len(), 2);
    assert!(plan.actions[0].update);
    assert_eq!(plan.actions[0].typed, "string");
    assert!(!plan.actions[1].update);
    assert_eq!(plan.stale, strings(&["old"]));
    let plan = plan_attribute_sync(&vec![attr("a", "string"), attr("e", "enum")], &vec![]);
    assert_eq!(plan.actions.len(), 1);
    assert_eq!(plan.failure, Some(PayloadIssue::EnumWithoutElements));
}

#[test]
fn index_sync_plan() {
    let local = vec![
        index("same", &["a"], &[]),
        index("changed", &["a"], &["DESC"]),
        index("new", &["b"], &[]),
    ];
    let remote = vec![
        remote_index("same", &["a"], &["ASC"]),
        remote_index("changed", &["a"], &["ASC"]),
        remote_index("gone", &["a"], &[]),
    ];
    let plan = plan_index_sync(&local, &remote);
    let changes: Vec<IndexChange> = plan.steps.iter().map(|s| s.change).collect();
    assert_eq!(changes, vec![IndexChange::Keep, IndexChange::Recreate, IndexChange::Create]);
    assert_eq!(plan.stale, strings(&["gone"]));
    assert_eq!(normalized_orders(&index("i", &["a", "b"], &[])), strings(&["ASC", "ASC"]));
}

#[test]
fn collection_steps_and_stale_collections() {
    let remote = vec![remote_collection("Posts", "Old name"), remote_collection("legacy", "L")];
    let step = plan_collection_step(&collection("posts", vec![], vec![]), &remote);
    assert!(!step.create);
    assert!(step.renamed);
    assert_eq!(
        render(&step.body),
        r#"{"name":"posts","permissions":[],"documentSecurity":false,"enabled":true}"#
    );
    let step = plan_collection_step(&collection("users", vec![], vec![]), &remote);
    assert!(step.create);
    assert_eq!(
        render(&step.body),
        r#"{"collectionId":"users","name":"users","permissions":[],"documentSecurity":false,"enabled":true}"#
    );
    assert_eq!(
        stale_collections(&vec![collection("posts", vec![], vec![])], &remote),
        strings(&["legacy"])
    );
}

#[test]
fn removing_a_collection_undoes_adding_it() {
    let before = schema_file(vec![collection("posts", vec![attr("title", "string")], vec![])]);
    let mut f = schema_file(vec![collection("posts", vec![attr("title", "string")], vec![])]);
    let id = nuvix::text::normalize_identifier(" Comments ");
    assert!(add_collection(&mut f, &id, "Comments".to_string(), false).is_ok());
    assert!(remove_collection(&mut f, &id).is_ok());
    assert_eq!(f.collections.len(), before.collections.len());
    assert_eq!(f.collections[0].id, before.collections[0].id);
    assert_eq!(f.collections[0].attributes.len(), 1);
}

#[test]
fn edits_keep_the_rest_of_the_collection() {
    let mut c = collection("posts", vec![attr("title", "string")], vec![]);
    c.enabled = false;
    c.document_security = true;
    c.permissions = strings(&["read(\"any\")"]);
    let mut f = schema_file(vec![c]);
    let p = check_new_attribute(&f, "posts", "body").ok().unwrap();
    push_attribute(&mut f, p, attr("body", "string"));
    let p = check_new_index(&f, "posts", "by_body").ok().unwrap();
    assert!(add_index(&mut f, p, "by_body".to_string(), "key".to_string(), &strings(&["body"]), &vec![]).is_ok());
    let c = &f.collections[0];
    assert!(!c.enabled && c.document_security);
    assert_eq!(c.permissions, strings(&["read(\"any\")"]));
    assert_eq!(c.name, "posts");
    assert_eq!(c.attributes.len(), 2);
    assert_eq!(c.indexes.len(), 1);
}

#[test]
fn stale_entries_are_deleted_only_when_confirmed_outside_a_dry_run() {
    let stale = strings(&["a", "b"]);
    let sent = stale_deletion(&stale, true, false);
    assert_eq!(sent.delete, stale);
    assert!(sent.report.is_empty());
    let dry = stale_deletion(&stale, true, true);
    assert!(dry.delete.is_empty());
    assert_eq!(dry.report, stale);
    let refused = stale_deletion(&stale, false, false);
    assert!(refused.delete.is_empty() && refused.report.is_empty());
    let refused_dry = stale_deletion(&stale, false, true);
    assert!(refused_dry.delete.is_empty() && refused_dry.report.is_empty());
}
