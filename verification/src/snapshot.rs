//! The snapshot of a database's SQL schemas that `migration pull` writes,
//! and what it leaves out of the schemas the platform manages.
use vstd::prelude::*;

use crate::text::{
    chars_of, contains_seq, contains_str, lowercase, push_str, spec_lowercase, str_eq, string_of,
    strip_suffix,
};

verus! {

// ---------------------------------------------------------------------------
// The schema snapshot
// ---------------------------------------------------------------------------

/// A SQL schema of the database and its kind (`managed` or `unmanaged`).
pub struct SchemaInfo {
    pub name: String,
    pub schema_type: String,
}

/// A table of a schema, with what the snapshot keeps of it.
pub struct TableData {
    pub schema_name: String,
    pub table_name: String,
    pub columns: Vec<ColumnData>,
    pub constraints: Vec<ConstraintData>,
    pub indexes: Vec<IndexData>,
    pub triggers: Vec<TriggerData>,
}

/// A column: its name, type, whether it may be null and its default.
pub struct ColumnData {
    pub name: String,
    pub data_type: String,
    pub is_nullable: bool,
    pub default_expr: Option<String>,
}

/// A constraint: its name, its kind letter (`f` for a foreign key) and its
/// definition.
pub struct ConstraintData {
    pub name: String,
    pub contype: String,
    pub definition: String,
}

/// An index, by its definition.
pub struct IndexData {
    pub definition: String,
}

/// A trigger, by its definition.
pub struct TriggerData {
    pub definition: String,
}

/// The pieces of `s` run through `f`, one after another.
pub open spec fn concat_map<T>(s: Seq<T>, f: spec_fn(T) -> Seq<char>) -> Seq<char>
    decreases s.len(),
{
    if s.len() == 0 {
        Seq::empty()
    } else {
        concat_map(s.drop_last(), f) + f(s.last())
    }
}

proof fn lemma_concat_map_step<T>(s: Seq<T>, f: spec_fn(T) -> Seq<char>, i: int)
    requires
        0 <= i < s.len(),
    ensures
        concat_map(s.take(i + 1), f) == concat_map(s.take(i), f) + f(s[i]),
{
    assert(s.take(i + 1).drop_last() == s.take(i));
    assert(s.take(i + 1).last() == s[i]);
}

/// A SQL string literal's content: each `'` doubled.
pub open spec fn sql_escaped(s: Seq<char>) -> Seq<char>
    decreases s.len(),
{
    if s.len() == 0 {
        Seq::empty()
    } else if s.last() == '\'' {
        sql_escaped(s.drop_last()) + seq!['\'', '\'']
    } else {
        sql_escaped(s.drop_last()).push(s.last())
    }
}

/// Doubles each `'` of the value, for a SQL string literal.
pub fn escape_sql_literal(value: &str) -> (r: String)
    ensures
        r@ == sql_escaped(value@),
{
    let v = chars_of(value);
    let mut out: Vec<char> = Vec::new();
    let mut i: usize = 0;
    while i < v.len()
        invariant
            i <= v.len(),
            v@ == value@,
            out@ == sql_escaped(v@.take(i as int)),
        decreases v.len() - i,
    {
        proof {
            assert(v@.take(i + 1).drop_last() == v@.take(i as int));
            assert(v@.take(i + 1).last() == v@[i as int]);
        }
        if v[i] == '\'' {
            out.push('\'');
            out.push('\'');
            proof {
                assert(out@ == sql_escaped(v@.take(i as int)) + seq!['\'', '\'']);
            }
        } else {
            out.push(v[i]);
        }
        i = i + 1;
    }
    proof {
        assert(v@.take(v@.len() as int) == v@);
    }
    string_of(out.as_slice())
}

/// `"schema"."table"`, the name by which a table is looked up.
pub open spec fn regclass_text(schema_name: Seq<char>, table_name: Seq<char>) -> Seq<char> {
    "\""@ + schema_name + "\".\""@ + table_name + "\""@
}

/// The quoted, qualified name of a table.
pub fn regclass_literal(schema_name: &str, table_name: &str) -> (r: String)
    ensures
        r@ == regclass_text(schema_name@, table_name@),
{
    let mut out = String::new();
    push_str(&mut out, "\"");
    push_str(&mut out, schema_name);
    push_str(&mut out, "\".\"");
    push_str(&mut out, table_name);
    push_str(&mut out, "\"");
    out
}

/// A column's line in `create table`.
pub open spec fn column_sql(c: ColumnData) -> Seq<char> {
    "  \""@ + c.name@ + "\" "@ + c.data_type@ + (if c.is_nullable {
        Seq::empty()
    } else {
        " not null"@
    }) + match c.default_expr {
        Some(d) => " default "@ + d@,
        None => Seq::empty(),
    }
}

/// The columns' lines, separated by `,` and a line break.
pub open spec fn columns_sql(cols: Seq<ColumnData>) -> Seq<char>
    decreases cols.len(),
{
    if cols.len() == 0 {
        Seq::empty()
    } else if cols.len() == 1 {
        column_sql(cols[0])
    } else {
        columns_sql(cols.drop_last()) + ",\n"@ + column_sql(cols.last())
    }
}

/// The `create table` statement of a table.
pub open spec fn create_table_sql(t: TableData) -> Seq<char> {
    "create table \""@ + t.schema_name@ + "\".\""@ + t.table_name@ + "\" (\n"@ + columns_sql(
        t.columns@,
    ) + "\n);\n"@
}

/// The text a column's line starts with: two spaces, the quoted name and the
/// type.
pub open spec fn column_head(c: ColumnData) -> Seq<char> {
    "  \""@ + c.name@ + "\" "@ + c.data_type@
}

/// Law: the line of a column starts with its quoted name and type, follows
/// them with ` not null` exactly when the column is not nullable, and ends
/// with ` default ` and the default expression whenever the column has one,
/// whether it is nullable or not.
pub proof fn law_column_line(c: ColumnData)
    ensures
        column_head(c).is_prefix_of(column_sql(c)),
        !c.is_nullable ==> (column_head(c) + " not null"@).is_prefix_of(column_sql(c)),
        c.default_expr matches Some(d) ==> (" default "@ + d@).is_suffix_of(column_sql(c)),
        c.is_nullable && c.default_expr is None ==> column_sql(c) == column_head(c),
        !c.is_nullable && c.default_expr is None ==> column_sql(c) == column_head(c)
            + " not null"@,
        c.is_nullable ==> (c.default_expr matches Some(d) ==> column_sql(c) == column_head(c)
            + " default "@ + d@),
        !c.is_nullable ==> (c.default_expr matches Some(d) ==> column_sql(c) == column_head(c)
            + " not null"@ + " default "@ + d@),
{
    let h = column_head(c);
    let s = column_sql(c);
    let nn: Seq<char> = if c.is_nullable {
        Seq::empty()
    } else {
        " not null"@
    };
    let dd: Seq<char> = match c.default_expr {
        Some(d) => " default "@ + d@,
        None => Seq::empty(),
    };
    assert(s == h + nn + dd);
    assert(h =~= s.subrange(0, h.len() as int));
    if !c.is_nullable {
        assert(h + " not null"@ =~= s.subrange(0, (h + " not null"@).len() as int));
    }
    if c.default_expr is Some {
        assert(dd =~= s.subrange(s.len() - dd.len(), s.len() as int));
    } else {
        assert(s =~= h + nn);
    }
    if c.is_nullable {
        assert(h + nn =~= h);
    }
}

/// Law: a table's `create table` statement holds the line of every column:
/// the first right after the opening `(` and a line break, each following
/// one after `,` and a line break, each but the last followed by `,` and a
/// line break, and the last followed by a line break and the closing `);`.
pub proof fn law_table_lists_columns(t: TableData, i: int)
    requires
        0 <= i < t.columns@.len(),
    ensures
        exists|a: Seq<char>, b: Seq<char>|
            {
                &&& create_table_sql(t) == a + column_sql(t.columns@[i]) + b
                &&& ("create table \""@ + t.schema_name@ + "\".\""@ + t.table_name@
                    + "\" ("@).is_prefix_of(a)
                &&& (i == 0 ==> a == "create table \""@ + t.schema_name@ + "\".\""@
                    + t.table_name@ + "\" (\n"@)
                &&& (i > 0 ==> ",\n"@.is_suffix_of(a))
                &&& (i == t.columns@.len() - 1 ==> b == "\n);\n"@)
                &&& (i < t.columns@.len() - 1 ==> ",\n"@.is_prefix_of(b))
                &&& "\n);\n"@.is_suffix_of(b)
            },
{
    let cols = t.columns@;
    let head = "create table \""@ + t.schema_name@ + "\".\""@ + t.table_name@ + "\" (\n"@;
    let tail = "\n);\n"@;
    lemma_columns_sql_split(cols, i);
    let (a0, b0) = choose|a0: Seq<char>, b0: Seq<char>|
        {
            &&& columns_sql(cols) == a0 + column_sql(cols[i]) + b0
            &&& (i == 0 ==> a0 == Seq::<char>::empty())
            &&& (i > 0 ==> ",\n"@.is_suffix_of(a0))
            &&& (i == cols.len() - 1 ==> b0 == Seq::<char>::empty())
            &&& (i < cols.len() - 1 ==> ",\n"@.is_prefix_of(b0))
        };
    let a = head + a0;
    let b = b0 + tail;
    assert(create_table_sql(t) == a + column_sql(cols[i]) + b) by {
        assert(create_table_sql(t) == head + columns_sql(cols) + tail);
        assert(head + (a0 + column_sql(cols[i]) + b0) + tail =~= a + column_sql(cols[i]) + b);
    }
    let opener = "create table \""@ + t.schema_name@ + "\".\""@ + t.table_name@ + "\" ("@;
    reveal_strlit("\" (\n");
    reveal_strlit("\" (");
    assert(head =~= opener + seq!['\n']);
    assert(opener =~= a.subrange(0, opener.len() as int));
    if i == 0 {
        assert(a =~= head);
    }
    if i > 0 {
        assert(",\n"@ =~= a.subrange(a.len() - 2, a.len() as int)) by {
            reveal_strlit(",\n");
            assert(a0.subrange(a0.len() - 2, a0.len() as int) =~= ",\n"@);
        }
    }
    if i == cols.len() - 1 {
        assert(b =~= tail);
    }
    if i < cols.len() - 1 {
        assert(",\n"@ =~= b.subrange(0, 2)) by {
            reveal_strlit(",\n");
            assert(b0.subrange(0, 2) =~= ",\n"@);
        }
    }
    assert(tail =~= b.subrange(b.len() - tail.len(), b.len() as int));
    assert(opener.is_prefix_of(a));
    assert(i > 0 ==> ",\n"@.is_suffix_of(a));
    assert(i < cols.len() - 1 ==> ",\n"@.is_prefix_of(b));
    assert(tail.is_suffix_of(b));
    assert(i == 0 ==> a == head);
    assert(i == cols.len() - 1 ==> b == tail);
}

proof fn lemma_columns_sql_split(cols: Seq<ColumnData>, i: int)
    requires
        0 <= i < cols.len(),
    ensures
        exists|a0: Seq<char>, b0: Seq<char>|
            {
                &&& columns_sql(cols) == a0 + column_sql(cols[i]) + b0
                &&& (i == 0 ==> a0 == Seq::<char>::empty())
                &&& (i > 0 ==> ",\n"@.is_suffix_of(a0))
                &&& (i == cols.len() - 1 ==> b0 == Seq::<char>::empty())
                &&& (i < cols.len() - 1 ==> ",\n"@.is_prefix_of(b0))
            },
    decreases cols.len(),
{
    reveal_strlit(",\n");
    let n = cols.len();
    let x = column_sql(cols[i]);
    if i == n - 1 {
        let e = Seq::<char>::empty();
        if n == 1 {
            assert(columns_sql(cols) == e + x + e) by {
                assert(e + x + e =~= x);
            }
        } else {
            let a0 = columns_sql(cols.drop_last()) + ",\n"@;
            assert(cols.last() == cols[i]);
            assert(columns_sql(cols) == a0 + x + e) by {
                assert(a0 + x + e =~= columns_sql(cols.drop_last()) + ",\n"@ + x);
            }
            assert(",\n"@ =~= a0.subrange(a0.len() - 2, a0.len() as int));
        }
    } else {
        let d = cols.drop_last();
        assert(d[i] == cols[i]);
        lemma_columns_sql_split(d, i);
        let (a1, b1) = choose|a1: Seq<char>, b1: Seq<char>|
            {
                &&& columns_sql(d) == a1 + column_sql(d[i]) + b1
                &&& (i == 0 ==> a1 == Seq::<char>::empty())
                &&& (i > 0 ==> ",\n"@.is_suffix_of(a1))
                &&& (i == d.len() - 1 ==> b1 == Seq::<char>::empty())
                &&& (i < d.len() - 1 ==> ",\n"@.is_prefix_of(b1))
            };
        let b0 = b1 + ",\n"@ + column_sql(cols.last());
        assert(columns_sql(cols) == columns_sql(d) + ",\n"@ + column_sql(cols.last()));
        assert(columns_sql(cols) == a1 + x + b0) by {
            assert(a1 + x + b1 + ",\n"@ + column_sql(cols.last()) =~= a1 + x + b0);
        }
        assert(",\n"@ =~= b0.subrange(0, 2)) by {
            if i == d.len() - 1 {
                assert(b1 =~= Seq::<char>::empty());
            } else {
                assert(b1.subrange(0, 2) =~= ",\n"@);
            }
        }
    }
}

fn push_column(out: &mut String, c: &ColumnData)
    ensures
        final(out)@ == old(out)@ + column_sql(*c),
{
    push_str(out, "  \"");
    push_str(out, c.name.as_str());
    push_str(out, "\" ");
    push_str(out, c.data_type.as_str());
    if !c.is_nullable {
        push_str(out, " not null");
    }
    match &c.default_expr {
        Some(d) => {
            push_str(out, " default ");
            push_str(out, d.as_str());
        },
        None => {},
    }
    proof {
        let e = Seq::<char>::empty();
        assert(e + e == e);
    }
}

/// The `create table` statement of a table: its columns with their types,
/// `not null` where they may not be null, and their defaults.
pub fn render_create_table_sql(table: &TableData) -> (r: String)
    ensures
        r@ == create_table_sql(*table),
{
    let mut sql = String::new();
    push_str(&mut sql, "create table \"");
    push_str(&mut sql, table.schema_name.as_str());
    push_str(&mut sql, "\".\"");
    push_str(&mut sql, table.table_name.as_str());
    push_str(&mut sql, "\" (\n");
    let ghost head = sql@;
    let cols = &table.columns;
    let mut i: usize = 0;
    proof {
        assert(cols@.take(0) =~= Seq::<ColumnData>::empty());
    }
    while i < cols.len()
        invariant
            i <= cols.len(),
            sql@ == head + columns_sql(cols@.take(i as int)),
        decreases cols.len() - i,
    {
        proof {
            assert(cols@.take(i + 1).drop_last() == cols@.take(i as int));
            assert(cols@.take(i + 1).last() == cols@[i as int]);
        }
        if i > 0 {
            push_str(&mut sql, ",\n");
        }
        push_column(&mut sql, &cols[i]);
        proof {
            if i == 0 {
                assert(cols@.take(1)[0] == cols@[0]);
            }
        }
        i = i + 1;
    }
    proof {
        assert(cols@.take(cols@.len() as int) == cols@);
    }
    push_str(&mut sql, "\n);\n");
    sql
}


/// The lines that create a schema.
pub open spec fn schema_sql(s: SchemaInfo) -> Seq<char> {
    "-- schema "@ + s.name@ + " ("@ + s.schema_type@ + ")\n"@ + "select system.create_schema('"@
        + sql_escaped(s.name@) + "', '"@ + sql_escaped(s.schema_type@) + "', null);\n\n"@
}

pub open spec fn schema_sql_fn() -> spec_fn(SchemaInfo) -> Seq<char> {
    |s: SchemaInfo| schema_sql(s)
}

pub open spec fn table_block_fn() -> spec_fn(TableData) -> Seq<char> {
    |t: TableData| create_table_sql(t) + "\n"@
}

/// The statement that adds a constraint to a table.
pub open spec fn add_constraint_sql(t: TableData, c: ConstraintData) -> Seq<char> {
    "alter table \""@ + t.schema_name@ + "\".\""@ + t.table_name@ + "\" add constraint \""@
        + c.name@ + "\" "@ + c.definition@ + ";\n"@
}

/// The statements that add a table's constraints: its foreign keys, or all
/// the others.
pub open spec fn constraints_sql(t: TableData, cs: Seq<ConstraintData>, foreign: bool) -> Seq<char>
    decreases cs.len(),
{
    if cs.len() == 0 {
        Seq::empty()
    } else {
        constraints_sql(t, cs.drop_last(), foreign) + if (cs.last().contype@ == "f"@) == foreign {
            add_constraint_sql(t, cs.last())
        } else {
            Seq::empty()
        }
    }
}

pub open spec fn constraints_fn(foreign: bool) -> spec_fn(TableData) -> Seq<char> {
    |t: TableData| constraints_sql(t, t.constraints@, foreign)
}

pub open spec fn index_line_fn() -> spec_fn(IndexData) -> Seq<char> {
    |i: IndexData| i.definition@ + ";\n"@
}

pub open spec fn indexes_fn() -> spec_fn(TableData) -> Seq<char> {
    |t: TableData| concat_map(t.indexes@, index_line_fn())
}

pub open spec fn trigger_line_fn() -> spec_fn(TriggerData) -> Seq<char> {
    |g: TriggerData| g.definition@ + ";\n"@
}

pub open spec fn triggers_fn() -> spec_fn(TableData) -> Seq<char> {
    |t: TableData| concat_map(t.triggers@, trigger_line_fn())
}

/// The snapshot of the schemas and tables: a header, the schemas, the
/// tables, their constraints but foreign keys, their indexes, their foreign
/// keys and their triggers, in that order.
pub open spec fn snapshot_sql(schemas: Seq<SchemaInfo>, tables: Seq<TableData>) -> Seq<char> {
    "-- Nuvix SQL schema snapshot\n"@ + "-- Generated by `nuvix migration pull`\n\n"@ + concat_map(
        schemas,
        schema_sql_fn(),
    ) + concat_map(tables, table_block_fn()) + concat_map(tables, constraints_fn(false)) + "\n"@
        + concat_map(tables, indexes_fn()) + "\n"@ + concat_map(tables, constraints_fn(true))
        + "\n"@ + concat_map(tables, triggers_fn())
}

fn push_schema(out: &mut String, s: &SchemaInfo)
    ensures
        final(out)@ == old(out)@ + schema_sql(*s),
{
    push_str(out, "-- schema ");
    push_str(out, s.name.as_str());
    push_str(out, " (");
    push_str(out, s.schema_type.as_str());
    push_str(out, ")\n");
    push_str(out, "select system.create_schema('");
    let n = escape_sql_literal(s.name.as_str());
    push_str(out, n.as_str());
    push_str(out, "', '");
    let k = escape_sql_literal(s.schema_type.as_str());
    push_str(out, k.as_str());
    push_str(out, "', null);\n\n");
}

fn push_constraints(out: &mut String, t: &TableData, foreign: bool)
    ensures
        final(out)@ == old(out)@ + constraints_sql(*t, t.constraints@, foreign),
{
    let ghost head = out@;
    let cs = &t.constraints;
    let mut i: usize = 0;
    proof {
        assert(cs@.take(0) =~= Seq::<ConstraintData>::empty());
    }
    while i < cs.len()
        invariant
            i <= cs.len(),
            out@ == head + constraints_sql(*t, cs@.take(i as int), foreign),
        decreases cs.len() - i,
    {
        let c = &cs[i];
        proof {
            assert(cs@.take(i + 1).drop_last() == cs@.take(i as int));
            assert(cs@.take(i + 1).last() == *c);
        }
        let is_foreign = str_eq(c.contype.as_str(), "f");
        if is_foreign == foreign {
            push_str(out, "alter table \"");
            push_str(out, t.schema_name.as_str());
            push_str(out, "\".\"");
            push_str(out, t.table_name.as_str());
            push_str(out, "\" add constraint \"");
            push_str(out, c.name.as_str());
            push_str(out, "\" ");
            push_str(out, c.definition.as_str());
            push_str(out, ";\n");
        } else {
            proof {
                assert(out@ + Seq::<char>::empty() == out@);
            }
        }
        i = i + 1;
    }
    proof {
        assert(cs@.take(cs@.len() as int) == cs@);
    }
}

fn push_indexes(out: &mut String, t: &TableData)
    ensures
        final(out)@ == old(out)@ + concat_map(t.indexes@, index_line_fn()),
{
    let ghost head = out@;
    let xs = &t.indexes;
    let mut i: usize = 0;
    proof {
        assert(xs@.take(0) =~= Seq::<IndexData>::empty());
    }
    while i < xs.len()
        invariant
            i <= xs.len(),
            out@ == head + concat_map(xs@.take(i as int), index_line_fn()),
        decreases xs.len() - i,
    {
        proof {
            lemma_concat_map_step(xs@, index_line_fn(), i as int);
        }
        push_str(out, xs[i].definition.as_str());
        push_str(out, ";\n");
        i = i + 1;
    }
    proof {
        assert(xs@.take(xs@.len() as int) == xs@);
    }
}

fn push_triggers(out: &mut String, t: &TableData)
    ensures
        final(out)@ == old(out)@ + concat_map(t.triggers@, trigger_line_fn()),
{
    let ghost head = out@;
    let xs = &t.triggers;
    let mut i: usize = 0;
    proof {
        assert(xs@.take(0) =~= Seq::<TriggerData>::empty());
    }
    while i < xs.len()
        invariant
            i <= xs.len(),
            out@ == head + concat_map(xs@.take(i as int), trigger_line_fn()),
        decreases xs.len() - i,
    {
        proof {
            lemma_concat_map_step(xs@, trigger_line_fn(), i as int);
        }
        push_str(out, xs[i].definition.as_str());
        push_str(out, ";\n");
        i = i + 1;
    }
    proof {
        assert(xs@.take(xs@.len() as int) == xs@);
    }
}

/// Which part of each table a pass over the tables writes.
enum TablePart {
    Create,
    Constraints,
    ForeignKeys,
    Indexes,
    Triggers,
}

spec fn table_part_fn(part: TablePart) -> spec_fn(TableData) -> Seq<char> {
    match part {
        TablePart::Create => table_block_fn(),
        TablePart::Constraints => constraints_fn(false),
        TablePart::ForeignKeys => constraints_fn(true),
        TablePart::Indexes => indexes_fn(),
        TablePart::Triggers => triggers_fn(),
    }
}

fn push_tables(out: &mut String, tables: &[TableData], part: TablePart)
    ensures
        final(out)@ == old(out)@ + concat_map(tables@, table_part_fn(part)),
{
    let ghost head = out@;
    let ghost f = table_part_fn(part);
    let mut i: usize = 0;
    proof {
        assert(tables@.take(0) =~= Seq::<TableData>::empty());
    }
    while i < tables.len()
        invariant
            i <= tables.len(),
            f == table_part_fn(part),
            out@ == head + concat_map(tables@.take(i as int), f),
        decreases tables.len() - i,
    {
        proof {
            lemma_concat_map_step(tables@, f, i as int);
        }
        let t = &tables[i];
        match part {
            TablePart::Create => {
                let sql = render_create_table_sql(t);
                push_str(out, sql.as_str());
                push_str(out, "\n");
            },
            TablePart::Constraints => push_constraints(out, t, false),
            TablePart::ForeignKeys => push_constraints(out, t, true),
            TablePart::Indexes => push_indexes(out, t),
            TablePart::Triggers => push_triggers(out, t),
        }
        i = i + 1;
    }
    proof {
        assert(tables@.take(tables@.len() as int) == tables@);
    }
}

/// The SQL snapshot of the schemas and their tables.
pub fn render_sql_snapshot(schemas: &[SchemaInfo], tables: &[TableData]) -> (r: String)
    ensures
        r@ == snapshot_sql(schemas@, tables@),
{
    let mut out = String::new();
    push_str(&mut out, "-- Nuvix SQL schema snapshot\n");
    push_str(&mut out, "-- Generated by `nuvix migration pull`\n\n");
    let ghost head = out@;
    let mut i: usize = 0;
    proof {
        assert(schemas@.take(0) =~= Seq::<SchemaInfo>::empty());
    }
    while i < schemas.len()
        invariant
            i <= schemas.len(),
            out@ == head + concat_map(schemas@.take(i as int), schema_sql_fn()),
        decreases schemas.len() - i,
    {
        proof {
            lemma_concat_map_step(schemas@, schema_sql_fn(), i as int);
        }
        push_schema(&mut out, &schemas[i]);
        i = i + 1;
    }
    proof {
        assert(schemas@.take(schemas@.len() as int) == schemas@);
    }
    push_tables(&mut out, tables, TablePart::Create);
    push_tables(&mut out, tables, TablePart::Constraints);
    push_str(&mut out, "\n");
    push_tables(&mut out, tables, TablePart::Indexes);
    push_str(&mut out, "\n");
    push_tables(&mut out, tables, TablePart::ForeignKeys);
    push_str(&mut out, "\n");
    push_tables(&mut out, tables, TablePart::Triggers);
    out
}


// ---------------------------------------------------------------------------
// What the snapshot leaves out of a managed schema
// ---------------------------------------------------------------------------

/// Whether a lowercased definition names the reserved `_id` column.
pub open spec fn names_reserved_id(d: Seq<char>) -> bool {
    ||| contains_seq(d, "\"_id\""@)
    ||| contains_seq(d, "(_id)"@)
    ||| contains_seq(d, "( _id"@)
    ||| contains_seq(d, ", _id"@)
    ||| contains_seq(d, "_id)"@)
}

/// Whether a definition, lowercased, names the reserved `_id` column.
pub fn contains_reserved_id(definition: &str) -> (r: bool)
    ensures
        r == names_reserved_id(spec_lowercase(definition@)),
{
    let d = lowercase(definition);
    let d = d.as_str();
    contains_str(d, "\"_id\"") || contains_str(d, "(_id)") || contains_str(d, "( _id")
        || contains_str(d, ", _id") || contains_str(d, "_id)")
}

/// Whether a definition creates an index over the reserved `_id` column.
pub open spec fn reserved_id_index(definition: Seq<char>) -> bool {
    let d = spec_lowercase(definition);
    (contains_seq(d, "create unique index"@) || contains_seq(d, "create index"@))
        && names_reserved_id(spec_lowercase(d))
}

/// Whether an index definition creates an index over the reserved `_id`
/// column.
pub fn is_reserved_id_index(definition: &str) -> (r: bool)
    ensures
        r == reserved_id_index(definition@),
{
    let d = lowercase(definition);
    (contains_str(d.as_str(), "create unique index") || contains_str(d.as_str(), "create index"))
        && contains_reserved_id(d.as_str())
}

/// Whether a schema of this kind is managed by the platform.
pub fn is_managed(schema_type: &str) -> (r: bool)
    ensures
        r == (schema_type@ == "managed"@),
{
    str_eq(schema_type, "managed")
}

/// Whether the snapshot keeps a table: a managed schema's permission tables
/// (named `..._perms`) are left out.
pub fn keep_table(managed: bool, table_name: &str) -> (r: bool)
    ensures
        r == !(managed && "_perms"@.is_suffix_of(table_name@)),
{
    !(managed && strip_suffix(table_name, "_perms").is_some())
}

/// Whether the snapshot keeps a column: a managed schema's `_id` column is
/// left out.
pub fn keep_column(managed: bool, name: &str) -> (r: bool)
    ensures
        r == !(managed && name@ == "_id"@),
{
    !(managed && str_eq(name, "_id"))
}

/// Whether one of the strings is `_id`.
fn any_reserved_id(cols: &Vec<String>) -> (r: bool)
    ensures
        r == exists|i: int| 0 <= i < cols@.len() && #[trigger] cols@[i]@ == "_id"@,
{
    let mut i: usize = 0;
    while i < cols.len()
        invariant
            i <= cols.len(),
            forall|k: int| 0 <= k < i ==> #[trigger] cols@[k]@ != "_id"@,
        decreases cols.len() - i,
    {
        if str_eq(cols[i].as_str(), "_id") {
            return true;
        }
        i = i + 1;
    }
    false
}

/// Whether the snapshot keeps a constraint: in a managed schema, one over
/// the `_id` column (among its columns `cols` or named in its definition) is
/// left out.
pub fn keep_constraint(managed: bool, cols: &Vec<String>, definition: &str) -> (r: bool)
    ensures
        r == !(managed && ((exists|i: int| 0 <= i < cols@.len() && #[trigger] cols@[i]@ == "_id"@)
            || names_reserved_id(spec_lowercase(definition@)))),
{
    if !managed {
        return true;
    }
    !(any_reserved_id(cols) || contains_reserved_id(definition))
}

/// Whether the snapshot keeps an index: one that backs a kept constraint
/// (named as it is) or a primary key (`..._pkey`) is left out, and so is, in
/// a managed schema, one over the `_id` column.
pub fn keep_index(
    managed: bool,
    name: &str,
    definition: &str,
    constraints: &Vec<ConstraintData>,
) -> (r: bool)
    ensures
        r == !((exists|i: int| 0 <= i < constraints@.len() && #[trigger] constraints@[i].name@ == name@)
            || "_pkey"@.is_suffix_of(name@) || (managed && reserved_id_index(definition@))),
{
    let mut i: usize = 0;
    while i < constraints.len()
        invariant
            i <= constraints.len(),
            forall|k: int| 0 <= k < i ==> #[trigger] constraints@[k].name@ != name@,
        decreases constraints.len() - i,
    {
        if str_eq(constraints[i].name.as_str(), name) {
            return false;
        }
        i = i + 1;
    }
    if strip_suffix(name, "_pkey").is_some() {
        return false;
    }
    !(managed && is_reserved_id_index(definition))
}

/// Whether the snapshot keeps a trigger: in a managed schema, the platform's
/// `on_row_delete` trigger and any trigger over the `_id` column are left
/// out.
pub fn keep_trigger(managed: bool, name: &str, definition: &str) -> (r: bool)
    ensures
        r == !(managed && (name@ == "on_row_delete"@ || contains_seq(definition@, "on_row_delete"@)
            || names_reserved_id(spec_lowercase(definition@)))),
{
    if !managed {
        return true;
    }
    if str_eq(name, "on_row_delete") || contains_str(definition, "on_row_delete") {
        return false;
    }
    !contains_reserved_id(definition)
}

} // verus!
