use nuvix::snapshot::{
    contains_reserved_id, escape_sql_literal, is_managed, is_reserved_id_index, keep_column,
    keep_constraint, keep_index, keep_table, keep_trigger, regclass_literal,
    render_create_table_sql, render_sql_snapshot, ColumnData, ConstraintData, IndexData,
    SchemaInfo, TableData, TriggerData,
};

fn column(name: &str, ty: &str, nullable: bool, default: Option<&str>) -> ColumnData {
    ColumnData {
        name: name.to_string(),
        data_type: ty.to_string(),
        is_nullable: nullable,
        default_expr: default.map(|d| d.to_string()),
    }
}

fn constraint(name: &str, contype: &str, definition: &str) -> ConstraintData {
    ConstraintData {
        name: name.to_string(),
        contype: contype.to_string(),
        definition: definition.to_string(),
    }
}

fn users_table() -> TableData {
    TableData {
        schema_name: "public".to_string(),
        table_name: "users".to_string(),
        columns: vec![
            column("id", "bigint", false, Some("nextval('users_id_seq'::regclass)")),
            column("email", "text", true, None),
        ],
        constraints: vec![
            constraint("users_pkey", "p", "PRIMARY KEY (id)"),
            constraint("users_org_fk", "f", "FOREIGN KEY (org) REFERENCES orgs(id)"),
        ],
        indexes: vec![IndexData {
            definition: "CREATE INDEX users_email ON public.users USING btree (email)".to_string(),
        }],
        triggers: vec![TriggerData {
            definition: "CREATE TRIGGER t AFTER INSERT ON public.users FOR EACH ROW EXECUTE FUNCTION f()"
                .to_string(),
        }],
    }
}

#[test]
fn escape_sql_literal_doubles_quotes() {
    assert_eq!(escape_sql_literal("O'Brien"), "O''Brien");
    assert_eq!(escape_sql_literal("''"), "''''");
    assert_eq!(escape_sql_literal("plain"), "plain");
}

#[test]
fn regclass_literal_quotes_both_names() {
    assert_eq!(regclass_literal("public", "users"), "\"public\".\"users\"");
}

#[test]
fn render_create_table_sql_lists_columns() {
    assert_eq!(
        render_create_table_sql(&users_table()),
        "create table \"public\".\"users\" (\n  \"id\" bigint not null default nextval('users_id_seq'::regclass),\n  \"email\" text\n);\n"
    );
}

#[test]
fn render_create_table_sql_without_columns() {
    let t = TableData {
        schema_name: "s".to_string(),
        table_name: "t".to_string(),
        columns: vec![],
        constraints: vec![],
        indexes: vec![],
        triggers: vec![],
    };
    assert_eq!(render_create_table_sql(&t), "create table \"s\".\"t\" (\n\n);\n");
}

#[test]
fn render_sql_snapshot_orders_sections() {
    let schemas = vec![SchemaInfo {
        name: "it's".to_string(),
        schema_type: "managed".to_string(),
    }];
    let out = render_sql_snapshot(&schemas, &[users_table()]);
    let expected = [
        "-- Nuvix SQL schema snapshot\n",
        "-- Generated by `nuvix migration pull`\n\n",
        "-- schema it's (managed)\n",
        "select system.create_schema('it''s', 'managed', null);\n\n",
        "create table \"public\".\"users\" (\n",
        "  \"id\" bigint not null default nextval('users_id_seq'::regclass),\n",
        "  \"email\" text\n",
        ");\n",
        "\n",
        "alter table \"public\".\"users\" add constraint \"users_pkey\" PRIMARY KEY (id);\n",
        "\n",
        "CREATE INDEX users_email ON public.users USING btree (email);\n",
        "\n",
        "alter table \"public\".\"users\" add constraint \"users_org_fk\" FOREIGN KEY (org) REFERENCES orgs(id);\n",
        "\n",
        "CREATE TRIGGER t AFTER INSERT ON public.users FOR EACH ROW EXECUTE FUNCTION f();\n"
    ]
    .concat();
    assert_eq!(out, expected);
}

#[test]
fn render_sql_snapshot_empty() {
    assert_eq!(
        render_sql_snapshot(&[], &[]),
        "-- Nuvix SQL schema snapshot\n-- Generated by `nuvix migration pull`\n\n\n\n\n"
    );
}

#[test]
fn contains_reserved_id_spots_id_column() {
    assert!(contains_reserved_id("UNIQUE (\"_ID\")"));
    assert!(contains_reserved_id("CHECK (_id)"));
    assert!(contains_reserved_id("( _id > 0)"));
    assert!(contains_reserved_id("(a, _id"));
    assert!(contains_reserved_id("foo_id)"));
    assert!(!contains_reserved_id("PRIMARY KEY (id)"));
}

#[test]
fn is_reserved_id_index_needs_create_index() {
    assert!(is_reserved_id_index("CREATE UNIQUE INDEX x ON t (_id)"));
    assert!(is_reserved_id_index("create index x on t (_id)"));
    assert!(!is_reserved_id_index("ALTER TABLE t (_id)"));
    assert!(!is_reserved_id_index("CREATE INDEX x ON t (email)"));
}

#[test]
fn managed_schemas_drop_platform_parts() {
    assert!(is_managed("managed"));
    assert!(!is_managed("unmanaged"));

    assert!(!keep_table(true, "docs_perms"));
    assert!(keep_table(false, "docs_perms"));
    assert!(keep_table(true, "docs"));

    assert!(!keep_column(true, "_id"));
    assert!(keep_column(false, "_id"));
    assert!(keep_column(true, "id"));

    assert!(!keep_constraint(true, &vec!["_id".to_string()], "PRIMARY KEY (x)"));
    assert!(!keep_constraint(true, &vec![], "UNIQUE (\"_id\")"));
    assert!(keep_constraint(false, &vec!["_id".to_string()], "UNIQUE (\"_id\")"));
    assert!(keep_constraint(true, &vec!["id".to_string()], "PRIMARY KEY (id)"));

    assert!(!keep_trigger(true, "on_row_delete", "x"));
    assert!(!keep_trigger(true, "t", "EXECUTE FUNCTION on_row_delete()"));
    assert!(!keep_trigger(true, "t", "UPDATE OF (_id)"));
    assert!(keep_trigger(false, "on_row_delete", "x"));
    assert!(keep_trigger(true, "t", "EXECUTE FUNCTION f()"));
}

#[test]
fn keep_index_drops_constraint_and_primary_key_indexes() {
    let cs = vec![constraint("users_email_key", "u", "UNIQUE (email)")];
    assert!(!keep_index(false, "users_email_key", "CREATE UNIQUE INDEX users_email_key ON t (email)", &cs));
    assert!(!keep_index(false, "users_pkey", "CREATE UNIQUE INDEX users_pkey ON t (id)", &cs));
    assert!(!keep_index(true, "x", "CREATE INDEX x ON t (_id)", &cs));
    assert!(keep_index(false, "x", "CREATE INDEX x ON t (_id)", &cs));
    assert!(keep_index(true, "y", "CREATE INDEX y ON t (email)", &cs));
}
