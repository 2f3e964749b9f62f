use nuvix::collections::{
    api_headers, api_project_id, api_target, collection_from_remote, endpoint_url,
    ensure_document_type, find_document_schema, new_schema_file, pulled_schema_file,
    resolve_schemas_dir, schema_create_payload, schema_file_path, ApiContextError, ApiTarget,
    RemoteSchema, RemoteSchemaError,
};
use nuvix::global_config::{GlobalConfig, GlobalProjectProfile};
use nuvix::json::JsonValue;
use nuvix::prompt::{
    csv_identifiers, default_value, default_value_text, entered_identifier, given_choice,
    given_identifier, optional_answer, question_allowed, preset_confirmation, PromptError, UiOpts,
};
use nuvix::remote::{RemoteAttribute, RemoteCollection, RemoteIndex};

fn ui(non_interactive: bool, yes: bool) -> UiOpts {
    UiOpts { non_interactive, yes }
}

fn remote_schema(id: &str, name: &str, ty: &str) -> RemoteSchema {
    RemoteSchema {
        id: id.to_string(),
        name: name.to_string(),
        description: None,
        schema_type: ty.to_string(),
    }
}

#[test]
fn preset_confirmation_without_asking() {
    assert_eq!(preset_confirmation(&ui(true, false), false), Some(false));
    assert_eq!(preset_confirmation(&ui(true, true), false), Some(true));
    assert_eq!(preset_confirmation(&ui(true, false), true), Some(true));
    assert_eq!(preset_confirmation(&ui(false, true), false), None);
}

#[test]
fn identifiers_given_and_entered() {
    assert_eq!(
        given_identifier(&Some(" My Schema ".to_string()), &ui(true, false)),
        Ok(Some("my_schema".to_string()))
    );
    assert_eq!(
        given_identifier(&Some("!!".to_string()), &ui(true, false)),
        Err(PromptError::Required)
    );
    assert_eq!(given_identifier(&None, &ui(false, false)), Ok(None));
    assert_eq!(entered_identifier("Posts 2"), Ok("posts_2".to_string()));
    assert_eq!(entered_identifier("  "), Err(PromptError::Invalid));
}

#[test]
fn optional_and_csv_answers() {
    assert_eq!(optional_answer("  x y "), Some("x y".to_string()));
    assert_eq!(optional_answer(" \t"), None);
    assert_eq!(
        csv_identifiers("Pending, Paid,,  cancelled ,!!"),
        vec!["pending", "paid", "cancelled"]
    );
    assert_eq!(csv_identifiers(""), Vec::<String>::new());
    assert_eq!(csv_identifiers("a"), vec!["a"]);
}

#[test]
fn default_values() {
    assert_eq!(default_value_text(None), None);
    assert_eq!(default_value_text(Some("   ")), None);
    assert_eq!(default_value_text(Some(" 42 ")), Some("42".to_string()));
    assert!(matches!(
        default_value("42".to_string(), Some(JsonValue::UInt(42))),
        JsonValue::UInt(42)
    ));
    match default_value("hello".to_string(), None) {
        JsonValue::Str(s) => assert_eq!(s, "hello"),
        _ => panic!("expected a string"),
    }
}

#[test]
fn schema_paths() {
    assert_eq!(resolve_schemas_dir("/p", &None), "/p/nuvix/schemas");
    assert_eq!(schema_file_path("/p", &None, "blog"), "/p/nuvix/schemas/blog.json");
    assert_eq!(
        schema_file_path("/p", &Some("/abs".to_string()), "blog"),
        "/abs/blog.json"
    );
}

#[test]
fn new_and_pulled_schema_files() {
    let f = new_schema_file("blog", Some("d".to_string()));
    assert_eq!(f.schema.id, "blog");
    assert_eq!(f.schema.name, "blog");
    assert_eq!(f.schema.schema_type, "document");
    assert!(f.collections.is_empty());

    let rc = RemoteCollection {
        id: "My Posts".to_string(),
        name: "Posts".to_string(),
        enabled: true,
        document_security: true,
        permissions: vec!["read(any)".to_string()],
    };
    let attrs = vec![RemoteAttribute {
        key: "Title".to_string(),
        attr_type: "string".to_string(),
        format: None,
        required: false,
        array: false,
        size: Some(5),
        min: None,
        max: None,
        default: None,
        elements: vec![],
        related_collection_id: None,
        relation_type: None,
        two_way: None,
        two_way_key: None,
        on_delete: None,
        status: None,
        error: None,
    }];
    let idxs = vec![RemoteIndex {
        key: "By Title".to_string(),
        index_type: "key".to_string(),
        attributes: vec!["Title".to_string()],
        orders: vec![],
        status: None,
        error: None,
    }];
    let c = collection_from_remote(rc, attrs, idxs);
    assert_eq!(c.id, "my_posts");
    assert_eq!(c.attributes[0].key, "title");
    assert_eq!(c.indexes[0].key, "by_title");
    assert_eq!(c.indexes[0].attributes, vec!["title".to_string()]);
    let f = pulled_schema_file(remote_schema("s1", "Blog", "document"), vec![c]);
    assert_eq!(f.schema.id, "s1");
    assert_eq!(f.collections.len(), 1);
}

#[test]
fn document_schemas_are_found() {
    assert!(ensure_document_type(&remote_schema("a", "A", "document")).is_ok());
    assert!(matches!(
        ensure_document_type(&remote_schema("a", "A", "sql")),
        Err(RemoteSchemaError::NotDocument { .. })
    ));
    let schemas = vec![
        remote_schema("1", "Blog", "sql"),
        remote_schema("2", "Blog", "document"),
        remote_schema("3", "Blog", "document"),
    ];
    assert_eq!(find_document_schema(&schemas, "Blog"), Some("2".to_string()));
    assert_eq!(find_document_schema(&schemas, "Shop"), None);
}

#[test]
fn schema_create_payload_fields() {
    let f = new_schema_file("blog", None);
    match schema_create_payload(&f.schema) {
        JsonValue::Object(fields) => {
            let keys: Vec<&str> = fields.iter().map(|(k, _)| k.as_str()).collect();
            assert_eq!(keys, vec!["name", "description", "type"]);
            assert!(matches!(fields[1].1, JsonValue::Null));
            assert!(matches!(&fields[2].1, JsonValue::Str(s) if s == "document"));
        }
        _ => panic!("expected an object"),
    }
}

#[test]
fn api_context_pieces() {
    let mut g = GlobalConfig::default();
    assert_eq!(
        api_project_id(None, &g, &ui(true, false)),
        Err(ApiContextError::ProjectIdRequired)
    );
    assert_eq!(api_project_id(None, &g, &ui(false, false)), Ok(None));
    assert_eq!(
        api_project_id(Some("x"), &g, &ui(true, false)),
        Ok(Some("x".to_string()))
    );
    let mut p = GlobalProjectProfile::default();
    p.nc_session = Some("sess".to_string());
    g.projects.insert("p".to_string(), p);
    assert_eq!(
        api_project_id(None, &g, &ui(true, false)),
        Ok(Some("p".to_string()))
    );
    assert!(matches!(
        api_target(&g, "q".to_string()),
        Err(ApiContextError::ProfileNotFound)
    ));
    assert!(matches!(
        api_target(&g, "p".to_string()),
        Err(ApiContextError::MissingApiUrl)
    ));
    let mut p = GlobalProjectProfile::default();
    p.api_url = Some("http://api/".to_string());
    g.projects.insert("n".to_string(), p);
    assert!(matches!(
        api_target(&g, "n".to_string()),
        Err(ApiContextError::MissingSession)
    ));
    let mut p = GlobalProjectProfile::default();
    p.api_url = Some("http://api/".to_string());
    p.nc_session = Some("sess".to_string());
    g.projects.insert("ok".to_string(), p);
    let t: ApiTarget = api_target(&g, "ok".to_string()).ok().unwrap();
    assert_eq!(t.base_url, "http://api");
    assert_eq!(t.session, "sess");
    assert_eq!(endpoint_url(&t, "/database/schemas"), "http://api/database/schemas");
    let h = api_headers(&t);
    assert_eq!(h[0], ("X-Nuvix-Project".to_string(), "ok".to_string()));
    assert_eq!(h[1], ("x-nuvix-session".to_string(), "sess".to_string()));
    assert_eq!(h[2], ("x-nuvix-mode".to_string(), "admin".to_string()));
}

#[test]
fn choices_and_questions_without_asking() {
    assert_eq!(given_choice(Some("string".to_string()), &ui(true, false)), Ok(Some("string".to_string())));
    assert_eq!(given_choice(None, &ui(true, false)), Err(PromptError::Required));
    assert_eq!(given_choice(None, &ui(false, false)), Ok(None));
    assert_eq!(question_allowed(&ui(true, true)), Err(PromptError::Required));
    assert_eq!(question_allowed(&ui(false, false)), Ok(()));
}
