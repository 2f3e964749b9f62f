//! The local document-schema file: its model, its validation, and the edits
//! that the collections commands make to it.
use vstd::prelude::*;

use crate::json::JsonValue;
use crate::text::{normalize_identifier, normalized_identifier, str_eq, str_views};

verus! {

/// The `schema` section of a document-schema file.
pub struct SchemaSpec {
    pub id: String,
    pub name: String,
    pub description: Option<String>,
    pub schema_type: String,
}

/// One collection of a document schema.
pub struct CollectionSpec {
    pub id: String,
    pub name: String,
    pub enabled: bool,
    pub document_security: bool,
    pub permissions: Vec<String>,
    pub attributes: Vec<AttributeSpec>,
    pub indexes: Vec<IndexSpec>,
}

/// One attribute of a collection. `min` and `max` hold the decimal text of
/// the bounds.
pub struct AttributeSpec {
    pub key: String,
    pub attr_type: String,
    pub format: Option<String>,
    pub required: bool,
    pub array: bool,
    pub size: Option<u32>,
    pub min: Option<String>,
    pub max: Option<String>,
    pub default: Option<JsonValue>,
    pub elements: Vec<String>,
    pub related_collection_id: Option<String>,
    pub relation_type: Option<String>,
    pub two_way: Option<bool>,
    pub two_way_key: Option<String>,
    pub on_delete: Option<String>,
    pub encrypt: Option<bool>,
    pub status: Option<String>,
    pub error: Option<String>,
    pub new_key: Option<String>,
}

/// One index of a collection.
pub struct IndexSpec {
    pub key: String,
    pub index_type: String,
    pub attributes: Vec<String>,
    pub orders: Vec<String>,
    pub status: Option<String>,
    pub error: Option<String>,
}

/// A whole document-schema file.
pub struct DocumentSchemaFile {
    pub schema: SchemaSpec,
    pub collections: Vec<CollectionSpec>,
}

/// Why a document-schema file is refused. Positions index into the file:
/// `collection` into `collections`, `attribute` into that collection's
/// `attributes`, `index` into its `indexes`, and `reference` into that
/// index's `attributes`.
#[derive(PartialEq, Eq, Structural, Debug, Clone, Copy)]
pub enum SchemaIssue {
    SchemaTypeNotDocument,
    SchemaIdInvalid,
    CollectionIdInvalid { collection: usize },
    DuplicateCollection { collection: usize },
    InvalidAttributeKey { collection: usize },
    DuplicateAttribute { collection: usize, attribute: usize },
    EnumWithoutElements { collection: usize, attribute: usize },
    RequiredWithDefault { collection: usize, attribute: usize },
    InvalidIndexKey { collection: usize },
    DuplicateIndex { collection: usize, index: usize },
    IndexWithoutAttributes { collection: usize, index: usize },
    UnknownIndexAttribute { collection: usize, index: usize, reference: usize },
    IndexOrdersMismatch { collection: usize, index: usize },
}

// ---------------------------------------------------------------------------
// Normalized keys
// ---------------------------------------------------------------------------

pub open spec fn normalized_all(v: Seq<String>) -> Seq<Seq<char>> {
    v.map_values(|s: String| normalized_identifier(s@))
}

pub open spec fn collection_ids(f: DocumentSchemaFile) -> Seq<Seq<char>> {
    f.collections@.map_values(|c: CollectionSpec| normalized_identifier(c.id@))
}

pub open spec fn attribute_keys(c: CollectionSpec) -> Seq<Seq<char>> {
    c.attributes@.map_values(|a: AttributeSpec| normalized_identifier(a.key@))
}

pub open spec fn index_keys(c: CollectionSpec) -> Seq<Seq<char>> {
    c.indexes@.map_values(|i: IndexSpec| normalized_identifier(i.key@))
}

// ---------------------------------------------------------------------------
// What validation finds first
// ---------------------------------------------------------------------------

/// The problem with attribute `ai` of collection `ci`, if any.
pub open spec fn attribute_issue(c: CollectionSpec, ci: int, ai: int) -> Option<SchemaIssue> {
    let a = c.attributes@[ai];
    let key = attribute_keys(c)[ai];
    if key.len() == 0 {
        Some(SchemaIssue::InvalidAttributeKey { collection: ci as usize })
    } else if attribute_keys(c).take(ai).contains(key) {
        Some(SchemaIssue::DuplicateAttribute { collection: ci as usize, attribute: ai as usize })
    } else if a.attr_type@ == "enum"@ && a.elements@.len() == 0 {
        Some(SchemaIssue::EnumWithoutElements { collection: ci as usize, attribute: ai as usize })
    } else if a.required && a.default is Some {
        Some(SchemaIssue::RequiredWithDefault { collection: ci as usize, attribute: ai as usize })
    } else {
        None
    }
}

/// The first problem among the first `n` attributes of collection `ci`.
pub open spec fn first_attribute_issue(c: CollectionSpec, ci: int, n: int) -> Option<SchemaIssue>
    decreases n,
{
    if n <= 0 {
        None
    } else {
        match first_attribute_issue(c, ci, n - 1) {
            Some(e) => Some(e),
            None => attribute_issue(c, ci, n - 1),
        }
    }
}

/// The position of the first of the first `n` attribute references of an
/// index whose normalized form is not in `known`.
pub open spec fn first_unknown_reference(refs: Seq<String>, known: Seq<Seq<char>>, n: int) -> Option<
    int,
>
    decreases n,
{
    if n <= 0 {
        None
    } else {
        match first_unknown_reference(refs, known, n - 1) {
            Some(k) => Some(k),
            None => if known.contains(normalized_identifier(refs[n - 1]@)) {
                None
            } else {
                Some(n - 1)
            },
        }
    }
}

/// The problem with index `ii` of collection `ci`, if any.
pub open spec fn index_issue(c: CollectionSpec, ci: int, ii: int) -> Option<SchemaIssue> {
    let idx = c.indexes@[ii];
    let key = index_keys(c)[ii];
    if key.len() == 0 {
        Some(SchemaIssue::InvalidIndexKey { collection: ci as usize })
    } else if index_keys(c).take(ii).contains(key) {
        Some(SchemaIssue::DuplicateIndex { collection: ci as usize, index: ii as usize })
    } else if idx.attributes@.len() == 0 {
        Some(SchemaIssue::IndexWithoutAttributes { collection: ci as usize, index: ii as usize })
    } else {
        match first_unknown_reference(idx.attributes@, attribute_keys(c), idx.attributes@.len() as int) {
            Some(k) => Some(
                SchemaIssue::UnknownIndexAttribute {
                    collection: ci as usize,
                    index: ii as usize,
                    reference: k as usize,
                },
            ),
            None => if idx.orders@.len() != 0 && idx.orders@.len() != idx.attributes@.len() {
                Some(SchemaIssue::IndexOrdersMismatch { collection: ci as usize, index: ii as usize })
            } else {
                None
            },
        }
    }
}

/// The first problem among the first `n` indexes of collection `ci`.
pub open spec fn first_index_issue(c: CollectionSpec, ci: int, n: int) -> Option<SchemaIssue>
    decreases n,
{
    if n <= 0 {
        None
    } else {
        match first_index_issue(c, ci, n - 1) {
            Some(e) => Some(e),
            None => index_issue(c, ci, n - 1),
        }
    }
}

/// The problem with collection `ci`, if any: its id, then its attributes in
/// order, then its indexes in order.
pub open spec fn collection_issue(f: DocumentSchemaFile, ci: int) -> Option<SchemaIssue> {
    let c = f.collections@[ci];
    let cid = collection_ids(f)[ci];
    if cid.len() == 0 {
        Some(SchemaIssue::CollectionIdInvalid { collection: ci as usize })
    } else if collection_ids(f).take(ci).contains(cid) {
        Some(SchemaIssue::DuplicateCollection { collection: ci as usize })
    } else {
        match first_attribute_issue(c, ci, c.attributes@.len() as int) {
            Some(e) => Some(e),
            None => first_index_issue(c, ci, c.indexes@.len() as int),
        }
    }
}

/// The first problem among the first `n` collections.
pub open spec fn first_collection_issue(f: DocumentSchemaFile, n: int) -> Option<SchemaIssue>
    decreases n,
{
    if n <= 0 {
        None
    } else {
        match first_collection_issue(f, n - 1) {
            Some(e) => Some(e),
            None => collection_issue(f, n - 1),
        }
    }
}

/// The first problem of a document-schema file, in the order in which the
/// file is read; `None` when the file is valid.
pub open spec fn schema_file_issue(f: DocumentSchemaFile) -> Option<SchemaIssue> {
    if f.schema.schema_type@ != "document"@ {
        Some(SchemaIssue::SchemaTypeNotDocument)
    } else if normalized_identifier(f.schema.id@).len() == 0 {
        Some(SchemaIssue::SchemaIdInvalid)
    } else {
        first_collection_issue(f, f.collections@.len() as int)
    }
}



// ---------------------------------------------------------------------------
// What a valid file is
// ---------------------------------------------------------------------------

/// No two entries of `s` are equal.
pub open spec fn all_distinct(s: Seq<Seq<char>>) -> bool {
    forall|i: int, j: int| 0 <= i < j < s.len() ==> s[i] != s[j]
}

pub open spec fn attribute_well_formed(c: CollectionSpec, ai: int) -> bool {
    let a = c.attributes@[ai];
    &&& attribute_keys(c)[ai].len() > 0
    &&& !(a.attr_type@ == "enum"@ && a.elements@.len() == 0)
    &&& !(a.required && a.default is Some)
}

pub open spec fn index_well_formed(c: CollectionSpec, ii: int) -> bool {
    let idx = c.indexes@[ii];
    &&& index_keys(c)[ii].len() > 0
    &&& idx.attributes@.len() > 0
    &&& forall|k: int|
        0 <= k < idx.attributes@.len() ==> attribute_keys(c).contains(
            normalized_identifier(#[trigger] idx.attributes@[k]@),
        )
    &&& (idx.orders@.len() == 0 || idx.orders@.len() == idx.attributes@.len())
}

pub open spec fn collection_well_formed(c: CollectionSpec) -> bool {
    &&& normalized_identifier(c.id@).len() > 0
    &&& all_distinct(attribute_keys(c))
    &&& forall|ai: int| 0 <= ai < c.attributes@.len() ==> #[trigger] attribute_well_formed(c, ai)
    &&& all_distinct(index_keys(c))
    &&& forall|ii: int| 0 <= ii < c.indexes@.len() ==> #[trigger] index_well_formed(c, ii)
}

/// A document-schema file that the tool accepts: a `document` schema with a
/// usable id, collections with usable and distinct normalized ids, and in each
/// collection usable distinct attribute and index keys, enum attributes with
/// elements, no required attribute with a default, and indexes over known
/// attributes whose orders, when given, match them one to one.
pub open spec fn schema_file_well_formed(f: DocumentSchemaFile) -> bool {
    &&& f.schema.schema_type@ == "document"@
    &&& normalized_identifier(f.schema.id@).len() > 0
    &&& all_distinct(collection_ids(f))
    &&& forall|ci: int| 0 <= ci < f.collections@.len() ==> collection_well_formed(
        #[trigger] f.collections@[ci],
    )
}

proof fn lemma_distinct_prefix(s: Seq<Seq<char>>, n: int)
    requires
        0 <= n <= s.len(),
    ensures
        (forall|i: int| 0 <= i < n ==> !#[trigger] s.take(i).contains(s[i])) <==> all_distinct(
            s.take(n),
        ),
{
    if forall|i: int| 0 <= i < n ==> !#[trigger] s.take(i).contains(s[i]) {
        assert forall|i: int, j: int| 0 <= i < j < s.take(n).len() implies s.take(n)[i] != s.take(
            n,
        )[j] by {
            assert(!s.take(j).contains(s[j]));
            assert(s.take(j)[i] == s[i]);
        }
    }
    if all_distinct(s.take(n)) {
        assert forall|i: int| 0 <= i < n implies !#[trigger] s.take(i).contains(s[i]) by {
            if s.take(i).contains(s[i]) {
                let k = choose|k: int| 0 <= k < s.take(i).len() && s.take(i)[k] == s[i];
                assert(s.take(n)[k] == s.take(n)[i]);
            }
        }
    }
}

proof fn lemma_first_attribute_none(c: CollectionSpec, ci: int, n: int)
    requires
        0 <= n <= c.attributes@.len(),
    ensures
        first_attribute_issue(c, ci, n) is None <==> forall|ai: int|
            0 <= ai < n ==> #[trigger] attribute_issue(c, ci, ai) is None,
    decreases n,
{
    if n > 0 {
        lemma_first_attribute_none(c, ci, n - 1);
    }
}

proof fn lemma_first_index_none(c: CollectionSpec, ci: int, n: int)
    requires
        0 <= n <= c.indexes@.len(),
    ensures
        first_index_issue(c, ci, n) is None <==> forall|ii: int|
            0 <= ii < n ==> #[trigger] index_issue(c, ci, ii) is None,
    decreases n,
{
    if n > 0 {
        lemma_first_index_none(c, ci, n - 1);
    }
}

proof fn lemma_first_collection_none(f: DocumentSchemaFile, n: int)
    requires
        0 <= n <= f.collections@.len(),
    ensures
        first_collection_issue(f, n) is None <==> forall|ci: int|
            0 <= ci < n ==> #[trigger] collection_issue(f, ci) is None,
    decreases n,
{
    if n > 0 {
        lemma_first_collection_none(f, n - 1);
    }
}

proof fn lemma_first_unknown_none(refs: Seq<String>, known: Seq<Seq<char>>, n: int)
    requires
        0 <= n <= refs.len(),
    ensures
        first_unknown_reference(refs, known, n) is None <==> forall|k: int|
            0 <= k < n ==> known.contains(normalized_identifier(#[trigger] refs[k]@)),
    decreases n,
{
    if n > 0 {
        lemma_first_unknown_none(refs, known, n - 1);
    }
}

proof fn lemma_collection_issue_none(f: DocumentSchemaFile, ci: int)
    requires
        0 <= ci < f.collections@.len(),
    ensures
        collection_issue(f, ci) is None <==> (!collection_ids(f).take(ci).contains(
            collection_ids(f)[ci],
        ) && collection_well_formed(f.collections@[ci])),
{
    let c = f.collections@[ci];
    let na = c.attributes@.len() as int;
    let ni = c.indexes@.len() as int;
    lemma_first_attribute_none(c, ci, na);
    lemma_first_index_none(c, ci, ni);
    lemma_distinct_prefix(attribute_keys(c), na);
    lemma_distinct_prefix(index_keys(c), ni);
    assert(attribute_keys(c).take(na) == attribute_keys(c));
    assert(index_keys(c).take(ni) == index_keys(c));
    assert forall|ii: int| 0 <= ii < ni implies (#[trigger] index_issue(c, ci, ii) is None <==> (
    !index_keys(c).take(ii).contains(index_keys(c)[ii]) && index_well_formed(c, ii))) by {
        let idx = c.indexes@[ii];
        lemma_first_unknown_none(idx.attributes@, attribute_keys(c), idx.attributes@.len() as int);
    }
    assert forall|ai: int| 0 <= ai < na implies (#[trigger] attribute_issue(c, ci, ai) is None
        <==> (!attribute_keys(c).take(ai).contains(attribute_keys(c)[ai])
        && attribute_well_formed(c, ai))) by {}
    if collection_issue(f, ci) is None {
        assert forall|ii: int| 0 <= ii < ni implies #[trigger] index_well_formed(c, ii) by {
            assert(index_issue(c, ci, ii) is None);
        }
        assert forall|ai: int| 0 <= ai < na implies #[trigger] attribute_well_formed(c, ai) by {
            assert(attribute_issue(c, ci, ai) is None);
        }
        assert forall|ai: int| 0 <= ai < na implies !#[trigger] attribute_keys(c).take(
            ai,
        ).contains(attribute_keys(c)[ai]) by {
            assert(attribute_issue(c, ci, ai) is None);
        }
        assert forall|ii: int| 0 <= ii < ni implies !#[trigger] index_keys(c).take(ii).contains(
            index_keys(c)[ii],
        ) by {
            assert(index_issue(c, ci, ii) is None);
        }
    }
    if !collection_ids(f).take(ci).contains(collection_ids(f)[ci]) && collection_well_formed(c) {
        assert forall|ai: int| 0 <= ai < na implies #[trigger] attribute_issue(c, ci, ai) is None by {
            assert(attribute_well_formed(c, ai));
        }
        assert forall|ii: int| 0 <= ii < ni implies #[trigger] index_issue(c, ci, ii) is None by {
            assert(index_well_formed(c, ii));
        }
    }
}

/// Law: validation accepts a document-schema file exactly when the file is
/// well formed, and otherwise names a problem.
pub proof fn law_validation_accepts_exactly_well_formed(f: DocumentSchemaFile)
    ensures
        schema_file_issue(f) is None <==> schema_file_well_formed(f),
{
    let n = f.collections@.len() as int;
    lemma_first_collection_none(f, n);
    lemma_distinct_prefix(collection_ids(f), n);
    assert(collection_ids(f).take(n) == collection_ids(f));
    assert forall|ci: int| 0 <= ci < n implies (#[trigger] collection_issue(f, ci) is None <==> (
    !collection_ids(f).take(ci).contains(collection_ids(f)[ci]) && collection_well_formed(
        f.collections@[ci],
    ))) by {
        lemma_collection_issue_none(f, ci);
    }
    if schema_file_issue(f) is None {
        assert forall|ci: int| 0 <= ci < n implies collection_well_formed(
            #[trigger] f.collections@[ci],
        ) by {
            assert(collection_issue(f, ci) is None);
        }
        assert forall|ci: int| 0 <= ci < n implies !#[trigger] collection_ids(f).take(
            ci,
        ).contains(collection_ids(f)[ci]) by {
            assert(collection_issue(f, ci) is None);
        }
    }
    if schema_file_well_formed(f) {
        assert forall|ci: int| 0 <= ci < n implies #[trigger] collection_issue(f, ci) is None by {
            assert(collection_well_formed(f.collections@[ci]));
        }
    }
}

// ---------------------------------------------------------------------------
// Once found, the first problem stays the first
// ---------------------------------------------------------------------------

proof fn lemma_first_attribute_stable(c: CollectionSpec, ci: int, k: int, n: int)
    requires
        k <= n,
        first_attribute_issue(c, ci, k) is Some,
    ensures
        first_attribute_issue(c, ci, n) == first_attribute_issue(c, ci, k),
    decreases n - k,
{
    if k < n {
        lemma_first_attribute_stable(c, ci, k, n - 1);
    }
}

proof fn lemma_first_index_stable(c: CollectionSpec, ci: int, k: int, n: int)
    requires
        k <= n,
        first_index_issue(c, ci, k) is Some,
    ensures
        first_index_issue(c, ci, n) == first_index_issue(c, ci, k),
    decreases n - k,
{
    if k < n {
        lemma_first_index_stable(c, ci, k, n - 1);
    }
}

proof fn lemma_first_collection_stable(f: DocumentSchemaFile, k: int, n: int)
    requires
        k <= n,
        first_collection_issue(f, k) is Some,
    ensures
        first_collection_issue(f, n) == first_collection_issue(f, k),
    decreases n - k,
{
    if k < n {
        lemma_first_collection_stable(f, k, n - 1);
    }
}

proof fn lemma_first_unknown_stable(refs: Seq<String>, known: Seq<Seq<char>>, k: int, n: int)
    requires
        k <= n,
        first_unknown_reference(refs, known, k) is Some,
    ensures
        first_unknown_reference(refs, known, n) == first_unknown_reference(refs, known, k),
    decreases n - k,
{
    if k < n {
        lemma_first_unknown_stable(refs, known, k, n - 1);
    }
}

// ---------------------------------------------------------------------------
// Executable checks
// ---------------------------------------------------------------------------

/// Whether `items` holds a string with the characters of `s`.
pub fn contains_str(items: &Vec<String>, s: &str) -> (r: bool)
    ensures
        r == str_views(items@).contains(s@),
{
    let mut i: usize = 0;
    while i < items.len()
        invariant
            i <= items.len(),
            forall|k: int| 0 <= k < i ==> items@[k]@ != s@,
        decreases items.len() - i,
    {
        if str_eq(items[i].as_str(), s) {
            assert(str_views(items@)[i as int] == s@);
            return true;
        }
        i = i + 1;
    }
    proof {
        if str_views(items@).contains(s@) {
            let k = choose|k: int| 0 <= k < str_views(items@).len() && str_views(items@)[k] == s@;
            assert(items@[k]@ == s@);
        }
    }
    false
}

/// The normalized forms of the given strings, in order.
pub fn normalize_all(items: &Vec<String>) -> (out: Vec<String>)
    ensures
        str_views(out@) == normalized_all(items@),
{
    let mut out: Vec<String> = Vec::new();
    let mut i: usize = 0;
    while i < items.len()
        invariant
            i <= items.len(),
            str_views(out@) == normalized_all(items@).take(i as int),
        decreases items.len() - i,
    {
        let n = normalize_identifier(items[i].as_str());
        let ghost before = out@;
        out.push(n);
        i = i + 1;
        proof {
            assert(str_views(out@) == str_views(before).push(n@));
            assert(normalized_all(items@).take(i as int) == normalized_all(items@).take(i - 1).push(
                normalized_identifier(items@[i - 1]@),
            ));
            assert(str_views(out@) == normalized_all(items@).take(i as int));
        }
    }
    proof {
        assert(normalized_all(items@).take(items@.len() as int) == normalized_all(items@));
    }
    out
}

fn validate_attributes(c: &CollectionSpec, ci: usize) -> (r: Result<Vec<String>, SchemaIssue>)
    ensures
        match r {
            Ok(keys) => first_attribute_issue(*c, ci as int, c.attributes@.len() as int) is None
                && str_views(keys@) == attribute_keys(*c),
            Err(e) => first_attribute_issue(*c, ci as int, c.attributes@.len() as int) == Some(e),
        },
{
    let mut keys: Vec<String> = Vec::new();
    let mut i: usize = 0;
    while i < c.attributes.len()
        invariant
            i <= c.attributes.len(),
            first_attribute_issue(*c, ci as int, i as int) is None,
            str_views(keys@) == attribute_keys(*c).take(i as int),
        decreases c.attributes.len() - i,
    {
        proof {
            if attribute_issue(*c, ci as int, i as int) is Some {
                lemma_first_attribute_stable(*c, ci as int, i + 1, c.attributes@.len() as int);
            }
        }
        let attr = &c.attributes[i];
        let key = normalize_identifier(attr.key.as_str());
        proof {
            assert(key@ == attribute_keys(*c)[i as int]);
        }
        if key.as_str().is_empty() {
            return Err(SchemaIssue::InvalidAttributeKey { collection: ci });
        }
        if contains_str(&keys, key.as_str()) {
            return Err(SchemaIssue::DuplicateAttribute { collection: ci, attribute: i });
        }
        if str_eq(attr.attr_type.as_str(), "enum") && attr.elements.len() == 0 {
            return Err(SchemaIssue::EnumWithoutElements { collection: ci, attribute: i });
        }
        if attr.required && attr.default.is_some() {
            return Err(SchemaIssue::RequiredWithDefault { collection: ci, attribute: i });
        }
        let ghost before = keys@;
        keys.push(key);
        i = i + 1;
        proof {
            assert(str_views(keys@) == str_views(before).push(attribute_keys(*c)[i - 1]));
            assert(attribute_keys(*c).take(i as int) == attribute_keys(*c).take(i - 1).push(
                attribute_keys(*c)[i - 1],
            ));
            assert(str_views(keys@) == attribute_keys(*c).take(i as int));
        }
    }
    proof {
        assert(attribute_keys(*c).take(c.attributes@.len() as int) == attribute_keys(*c));
    }
    Ok(keys)
}

fn first_unknown(refs: &Vec<String>, known: &Vec<String>) -> (r: Option<usize>)
    ensures
        r matches Some(k) ==> first_unknown_reference(
            refs@,
            str_views(known@),
            refs@.len() as int,
        ) == Some(k as int),
        r is None ==> first_unknown_reference(refs@, str_views(known@), refs@.len() as int) is None,
{
    let mut i: usize = 0;
    while i < refs.len()
        invariant
            i <= refs.len(),
            first_unknown_reference(refs@, str_views(known@), i as int) is None,
        decreases refs.len() - i,
    {
        let n = normalize_identifier(refs[i].as_str());
        proof {
            if !str_views(known@).contains(normalized_identifier(refs@[i as int]@)) {
                lemma_first_unknown_stable(refs@, str_views(known@), i + 1, refs@.len() as int);
            }
        }
        if !contains_str(known, n.as_str()) {
            return Some(i);
        }
        i = i + 1;
    }
    None
}

fn validate_indexes(c: &CollectionSpec, ci: usize, keys: &Vec<String>) -> (r: Result<
    (),
    SchemaIssue,
>)
    requires
        str_views(keys@) == attribute_keys(*c),
    ensures
        match r {
            Ok(()) => first_index_issue(*c, ci as int, c.indexes@.len() as int) is None,
            Err(e) => first_index_issue(*c, ci as int, c.indexes@.len() as int) == Some(e),
        },
{
    let mut seen: Vec<String> = Vec::new();
    let mut i: usize = 0;
    while i < c.indexes.len()
        invariant
            i <= c.indexes.len(),
            str_views(keys@) == attribute_keys(*c),
            first_index_issue(*c, ci as int, i as int) is None,
            str_views(seen@) == index_keys(*c).take(i as int),
        decreases c.indexes.len() - i,
    {
        proof {
            if index_issue(*c, ci as int, i as int) is Some {
                lemma_first_index_stable(*c, ci as int, i + 1, c.indexes@.len() as int);
            }
        }
        let idx = &c.indexes[i];
        let key = normalize_identifier(idx.key.as_str());
        proof {
            assert(key@ == index_keys(*c)[i as int]);
        }
        if key.as_str().is_empty() {
            return Err(SchemaIssue::InvalidIndexKey { collection: ci });
        }
        if contains_str(&seen, key.as_str()) {
            return Err(SchemaIssue::DuplicateIndex { collection: ci, index: i });
        }
        if idx.attributes.len() == 0 {
            return Err(SchemaIssue::IndexWithoutAttributes { collection: ci, index: i });
        }
        match first_unknown(&idx.attributes, keys) {
            Some(k) => {
                return Err(
                    SchemaIssue::UnknownIndexAttribute { collection: ci, index: i, reference: k },
                );
            },
            None => {},
        }
        if idx.orders.len() != 0 && idx.orders.len() != idx.attributes.len() {
            return Err(SchemaIssue::IndexOrdersMismatch { collection: ci, index: i });
        }
        let ghost before = seen@;
        seen.push(key);
        i = i + 1;
        proof {
            assert(str_views(seen@) == str_views(before).push(index_keys(*c)[i - 1]));
            assert(index_keys(*c).take(i as int) == index_keys(*c).take(i - 1).push(
                index_keys(*c)[i - 1],
            ));
            assert(str_views(seen@) == index_keys(*c).take(i as int));
        }
    }
    Ok(())
}

fn check_collection(file: &DocumentSchemaFile, ci: usize, ids: &Vec<String>) -> (r: Result<
    String,
    SchemaIssue,
>)
    requires
        ci < file.collections@.len(),
        str_views(ids@) == collection_ids(*file).take(ci as int),
    ensures
        match r {
            Ok(cid) => collection_issue(*file, ci as int) is None && cid@ == collection_ids(
                *file,
            )[ci as int],
            Err(e) => collection_issue(*file, ci as int) == Some(e),
        },
{
    let c = &file.collections[ci];
    let cid = normalize_identifier(c.id.as_str());
    proof {
        assert(cid@ == collection_ids(*file)[ci as int]);
    }
    if cid.as_str().is_empty() {
        return Err(SchemaIssue::CollectionIdInvalid { collection: ci });
    }
    if contains_str(ids, cid.as_str()) {
        return Err(SchemaIssue::DuplicateCollection { collection: ci });
    }
    let keys = match validate_attributes(c, ci) {
        Ok(keys) => keys,
        Err(e) => {
            return Err(e);
        },
    };
    match validate_indexes(c, ci, &keys) {
        Ok(()) => {},
        Err(e) => {
            return Err(e);
        },
    }
    Ok(cid)
}

/// Checks a document-schema file and names its first problem.
pub fn validate_schema_file(file: &DocumentSchemaFile) -> (r: Result<(), SchemaIssue>)
    ensures
        match r {
            Ok(()) => schema_file_issue(*file) is None,
            Err(e) => schema_file_issue(*file) == Some(e),
        },
{
    if !str_eq(file.schema.schema_type.as_str(), "document") {
        return Err(SchemaIssue::SchemaTypeNotDocument);
    }
    let sid = normalize_identifier(file.schema.id.as_str());
    if sid.as_str().is_empty() {
        return Err(SchemaIssue::SchemaIdInvalid);
    }
    let mut ids: Vec<String> = Vec::new();
    let mut ci: usize = 0;
    while ci < file.collections.len()
        invariant
            ci <= file.collections.len(),
            file.schema.schema_type@ == "document"@,
            normalized_identifier(file.schema.id@).len() != 0,
            first_collection_issue(*file, ci as int) is None,
            str_views(ids@) == collection_ids(*file).take(ci as int),
        decreases file.collections.len() - ci,
    {
        match check_collection(file, ci, &ids) {
            Ok(cid) => {
                let ghost before = ids@;
                ids.push(cid);
                ci = ci + 1;
                proof {
                    assert(str_views(ids@) == str_views(before).push(
                        collection_ids(*file)[ci - 1],
                    ));
                    assert(collection_ids(*file).take(ci as int) == collection_ids(*file).take(
                        ci - 1,
                    ).push(collection_ids(*file)[ci - 1]));
                }
            },
            Err(e) => {
                proof {
                    assert(first_collection_issue(*file, ci + 1) == Some(e));
                    lemma_first_collection_stable(
                        *file,
                        ci + 1,
                        file.collections@.len() as int,
                    );
                }
                return Err(e);
            },
        }
    }
    Ok(())
}

} // verus!
