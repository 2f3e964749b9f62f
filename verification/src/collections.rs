//! What the collections commands decide between their calls to the server
//! and the file system: where schema files live, how a pulled collection is
//! put together, which remote schema a push goes to, and whom a request
//! speaks for.
use vstd::prelude::*;

use crate::client::{client_base_url, ensure_api_url};
use crate::global_config::{load_session, loaded_session, GlobalConfig};
use crate::json::{
    fields_json, json_opt_str, json_str, object, opt_str_json, push_field, Json, JsonValue,
};
use crate::paths::{path_join, resolve_dir, resolved_path, spec_path_join};
use crate::prompt::UiOpts;
use crate::remote::{
    attribute_from_remote, index_from_remote, remote_attribute_to_local, remote_index_to_local,
    RemoteAttribute, RemoteCollection, RemoteIndex,
};
use crate::schema::{AttributeSpec, CollectionSpec, DocumentSchemaFile, IndexSpec, SchemaSpec};
use crate::text::{
    is_char, normalize_identifier, normalized_identifier, owned, push_str, str_eq, trim_end_by,
};

verus! {

// ---------------------------------------------------------------------------
// Schema files
// ---------------------------------------------------------------------------

/// Where document-schema files live by default, under the project directory.
pub const DEFAULT_SCHEMAS_DIR: &'static str = "nuvix/schemas";

/// The schemas directory: the one given, taken relative to the project
/// directory, or the default one.
pub fn resolve_schemas_dir(project_dir: &str, custom: &Option<String>) -> (r: String)
    ensures
        r@ == match custom {
            Some(v) => resolved_path(project_dir@, v@),
            None => spec_path_join(project_dir@, DEFAULT_SCHEMAS_DIR@),
        },
{
    resolve_dir(project_dir, custom, DEFAULT_SCHEMAS_DIR)
}

/// The file of a document schema: `<schema id>.json` in the schemas
/// directory.
pub fn schema_file_path(project_dir: &str, custom_dir: &Option<String>, schema_id: &str) -> (r:
    String)
    ensures
        r@ == spec_path_join(
            match custom_dir {
                Some(v) => resolved_path(project_dir@, v@),
                None => spec_path_join(project_dir@, DEFAULT_SCHEMAS_DIR@),
            },
            schema_id@ + ".json"@,
        ),
{
    let dir = resolve_schemas_dir(project_dir, custom_dir);
    let mut name = owned(schema_id);
    push_str(&mut name, ".json");
    path_join(dir.as_str(), name.as_str())
}

/// A new document-schema file with no collections: its id and name are the
/// schema id.
pub fn new_schema_file(schema_id: &str, description: Option<String>) -> (r: DocumentSchemaFile)
    ensures
        r.schema.id@ == schema_id@,
        r.schema.name@ == schema_id@,
        r.schema.description == description,
        r.schema.schema_type@ == "document"@,
        r.collections@.len() == 0,
{
    DocumentSchemaFile {
        schema: SchemaSpec {
            id: owned(schema_id),
            name: owned(schema_id),
            description,
            schema_type: owned("document"),
        },
        collections: Vec::new(),
    }
}

// ---------------------------------------------------------------------------
// Pulling a schema
// ---------------------------------------------------------------------------

/// A schema as the server reports it.
pub struct RemoteSchema {
    pub id: String,
    pub name: String,
    pub description: Option<String>,
    pub schema_type: String,
}

/// Why a remote schema cannot be used.
pub enum RemoteSchemaError {
    /// The schema exists but is not a document schema; its type is given.
    NotDocument { schema_type: String },
}

/// Accepts a remote schema only when it is a document schema.
pub fn ensure_document_type(schema: &RemoteSchema) -> (r: Result<(), RemoteSchemaError>)
    ensures
        r is Ok <==> schema.schema_type@ == "document"@,
        r matches Err(RemoteSchemaError::NotDocument { schema_type: t }) ==> t@
            == schema.schema_type@,
{
    if str_eq(schema.schema_type.as_str(), "document") {
        Ok(())
    } else {
        Err(RemoteSchemaError::NotDocument { schema_type: owned(schema.schema_type.as_str()) })
    }
}

/// The local form of a remote collection with its attributes and indexes:
/// its id normalized, the rest converted one by one, in order.
pub fn collection_from_remote(
    rc: RemoteCollection,
    attributes: Vec<RemoteAttribute>,
    indexes: Vec<RemoteIndex>,
) -> (r: CollectionSpec)
    ensures
        r.id@ == normalized_identifier(rc.id@),
        r.name == rc.name,
        r.enabled == rc.enabled,
        r.document_security == rc.document_security,
        r.permissions == rc.permissions,
        r.attributes@.len() == attributes@.len(),
        forall|i: int|
            0 <= i < attributes@.len() ==> attribute_from_remote(
                #[trigger] r.attributes@[i],
                attributes@[i],
            ),
        r.indexes@.len() == indexes@.len(),
        forall|i: int|
            0 <= i < indexes@.len() ==> index_from_remote(#[trigger] r.indexes@[i], indexes@[i]),
{
    let ghost attrs = attributes@;
    let ghost idxs = indexes@;
    let mut rest = attributes;
    let mut local_attrs: Vec<AttributeSpec> = Vec::new();
    let ghost mut n: int = 0;
    while rest.len() > 0
        invariant
            0 <= n <= attrs.len(),
            rest@ == attrs.skip(n),
            local_attrs@.len() == n,
            forall|i: int| 0 <= i < n ==> attribute_from_remote(#[trigger] local_attrs@[i], attrs[i]),
        decreases rest.len(),
    {
        let a = rest.remove(0);
        proof {
            assert(a == attrs[n]);
        }
        local_attrs.push(remote_attribute_to_local(a));
        proof {
            n = n + 1;
            assert(rest@ == attrs.skip(n));
        }
    }
    let mut rest_i = indexes;
    let mut local_idx: Vec<IndexSpec> = Vec::new();
    let ghost mut m: int = 0;
    while rest_i.len() > 0
        invariant
            0 <= m <= idxs.len(),
            rest_i@ == idxs.skip(m),
            local_idx@.len() == m,
            forall|i: int| 0 <= i < m ==> index_from_remote(#[trigger] local_idx@[i], idxs[i]),
        decreases rest_i.len(),
    {
        let x = rest_i.remove(0);
        proof {
            assert(x == idxs[m]);
        }
        local_idx.push(remote_index_to_local(x));
        proof {
            m = m + 1;
            assert(rest_i@ == idxs.skip(m));
        }
    }
    CollectionSpec {
        id: normalize_identifier(rc.id.as_str()),
        name: rc.name,
        enabled: rc.enabled,
        document_security: rc.document_security,
        permissions: rc.permissions,
        attributes: local_attrs,
        indexes: local_idx,
    }
}

/// The local file of a pulled schema and its collections.
pub fn pulled_schema_file(schema: RemoteSchema, collections: Vec<CollectionSpec>) -> (r:
    DocumentSchemaFile)
    ensures
        r.schema.id == schema.id,
        r.schema.name == schema.name,
        r.schema.description == schema.description,
        r.schema.schema_type == schema.schema_type,
        r.collections == collections,
{
    DocumentSchemaFile {
        schema: SchemaSpec {
            id: schema.id,
            name: schema.name,
            description: schema.description,
            schema_type: schema.schema_type,
        },
        collections,
    }
}

// ---------------------------------------------------------------------------
// Pushing a schema
// ---------------------------------------------------------------------------

/// The position of the first remote document schema with the given name.
pub open spec fn document_schema_position(schemas: Seq<RemoteSchema>, name: Seq<char>) -> Option<
    int,
> {
    if exists|i: int|
        0 <= i < schemas.len() && #[trigger] schemas[i].name@ == name && schemas[i].schema_type@
            == "document"@ {
        Some(
            choose|i: int|
                0 <= i < schemas.len() && schemas[i].name@ == name && schemas[i].schema_type@
                    == "document"@ && forall|j: int|
                    0 <= j < i ==> !(#[trigger] schemas[j].name@ == name && schemas[j].schema_type@
                        == "document"@),
        )
    } else {
        None
    }
}

/// The id of the first remote document schema named `name`, if any.
pub fn find_document_schema(schemas: &Vec<RemoteSchema>, name: &str) -> (r: Option<String>)
    ensures
        match r {
            Some(id) => document_schema_position(schemas@, name@) matches Some(i) && id@
                == schemas@[i].id@,
            None => document_schema_position(schemas@, name@) is None,
        },
{
    let mut i: usize = 0;
    while i < schemas.len()
        invariant
            i <= schemas.len(),
            forall|j: int|
                0 <= j < i ==> !(#[trigger] schemas@[j].name@ == name@ && schemas@[j].schema_type@
                    == "document"@),
        decreases schemas.len() - i,
    {
        let s = &schemas[i];
        if str_eq(s.name.as_str(), name) && str_eq(s.schema_type.as_str(), "document") {
            proof {
                let p = choose|k: int|
                    0 <= k < schemas@.len() && schemas@[k].name@ == name@ && schemas@[k].schema_type@
                        == "document"@ && forall|j: int|
                        0 <= j < k ==> !(#[trigger] schemas@[j].name@ == name@
                            && schemas@[j].schema_type@ == "document"@);
                assert(0 <= i && schemas@[i as int].name@ == name@);
                if p < i {
                } else if p > i {
                    assert(!(schemas@[i as int].name@ == name@ && schemas@[i as int].schema_type@
                        == "document"@));
                }
            }
            return Some(owned(s.id.as_str()));
        }
        i = i + 1;
    }
    None
}

/// The JSON view of the payload that creates a document schema.
pub open spec fn schema_create_json(local: SchemaSpec) -> Json {
    Json::Object(
        Seq::empty().push(("name"@, Json::Str(local.name@))).push(
            ("description"@, opt_str_json(local.description)),
        ).push(("type"@, Json::Str("document"@))),
    )
}

/// The payload that creates the local schema on the server as a document
/// schema.
pub fn schema_create_payload(local: &SchemaSpec) -> (r: JsonValue)
    ensures
        r.json() == schema_create_json(*local),
{
    let mut fields: Vec<(String, JsonValue)> = Vec::new();
    proof {
        assert(fields_json(fields@) =~= Seq::empty());
    }
    push_field(&mut fields, "name", json_str(local.name.as_str()));
    push_field(&mut fields, "description", json_opt_str(&local.description));
    push_field(&mut fields, "type", json_str("document"));
    object(fields)
}

// ---------------------------------------------------------------------------
// Whom requests speak for
// ---------------------------------------------------------------------------

/// The project, API and session that requests of the collections commands
/// use.
pub struct ApiTarget {
    pub base_url: String,
    pub project_id: String,
    pub session: String,
}

/// Why the collections commands cannot reach the server.
#[derive(PartialEq, Eq, Structural, Debug, Clone, Copy)]
pub enum ApiContextError {
    /// No project was given or is current, and the command may not ask.
    ProjectIdRequired,
    /// There is no profile for the project.
    ProfileNotFound,
    /// The profile holds no session.
    MissingSession,
    /// The profile has no API URL.
    MissingApiUrl,
}

/// The project requests go to: the one requested, else the one the global
/// configuration resolves to; `Ok(None)` when none resolves and it is to be
/// asked for, refused when the command may not ask.
pub fn api_project_id(requested: Option<&str>, global: &GlobalConfig, ui: &UiOpts) -> (r: Result<
    Option<String>,
    ApiContextError,
>)
    ensures
        match requested {
            Some(id) => r matches Ok(Some(x)) && x@ == id@,
            None => match global.current_project_id {
                Some(cur) => r matches Ok(Some(x)) && x@ == cur@,
                None => if global.projects.entries().len() == 1 {
                    r matches Ok(Some(x)) && x@ == global.projects.keys()[0]
                } else if ui.non_interactive {
                    r == Err::<Option<String>, ApiContextError>(ApiContextError::ProjectIdRequired)
                } else {
                    r == Ok::<Option<String>, ApiContextError>(None)
                },
            },
        },
{
    if let Some(id) = requested {
        return Ok(Some(owned(id)));
    }
    match global.resolve_project_id(None) {
        Ok(id) => Ok(Some(id)),
        Err(_) => {
            if ui.non_interactive {
                Err(ApiContextError::ProjectIdRequired)
            } else {
                Ok(None)
            }
        },
    }
}

/// Whom requests for `project_id` speak for: the profile's session and its
/// API URL without trailing slashes.
pub fn api_target(global: &GlobalConfig, project_id: String) -> (r: Result<ApiTarget, ApiContextError>)
    ensures
        !global.projects.has_key(project_id@) ==> r == Err::<ApiTarget, ApiContextError>(
            ApiContextError::ProfileNotFound,
        ),
        global.projects.has_key(project_id@) ==> {
            let p = global.projects.value_of(project_id@);
            match loaded_session(p) {
                None => r == Err::<ApiTarget, ApiContextError>(ApiContextError::MissingSession),
                Some(s) => match p.api_url {
                    None => r == Err::<ApiTarget, ApiContextError>(ApiContextError::MissingApiUrl),
                    Some(u) => r matches Ok(t) && t.project_id == project_id && t.session@ == s
                        && t.base_url@ == trim_end_by(u@, is_char('/')),
                },
            }
        },
{
    let profile = match global.projects.get(project_id.as_str()) {
        Some(p) => p,
        None => {
            return Err(ApiContextError::ProfileNotFound);
        },
    };
    let session = match load_session(project_id.as_str(), profile) {
        Some(s) => s,
        None => {
            return Err(ApiContextError::MissingSession);
        },
    };
    let base = match ensure_api_url(profile) {
        Ok(u) => u,
        Err(_) => {
            return Err(ApiContextError::MissingApiUrl);
        },
    };
    Ok(ApiTarget { base_url: client_base_url(base.as_str()), project_id, session })
}

/// The headers every request of the collections commands carries: the
/// project, the session, and the admin mode.
pub fn api_headers(t: &ApiTarget) -> (r: Vec<(String, String)>)
    ensures
        r@.len() == 3,
        r@[0].0@ == "X-Nuvix-Project"@ && r@[0].1@ == t.project_id@,
        r@[1].0@ == "x-nuvix-session"@ && r@[1].1@ == t.session@,
        r@[2].0@ == "x-nuvix-mode"@ && r@[2].1@ == "admin"@,
{
    let mut r: Vec<(String, String)> = Vec::new();
    r.push((owned("X-Nuvix-Project"), owned(t.project_id.as_str())));
    r.push((owned("x-nuvix-session"), owned(t.session.as_str())));
    r.push((owned("x-nuvix-mode"), owned("admin")));
    r
}

/// The URL of an API path: the base URL, then the path as given.
pub fn endpoint_url(t: &ApiTarget, path: &str) -> (r: String)
    ensures
        r@ == t.base_url@ + path@,
{
    let mut out = owned(t.base_url.as_str());
    push_str(&mut out, path);
    out
}

} // verus!
