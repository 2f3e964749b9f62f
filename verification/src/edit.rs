//! The edits that the collections commands make to a document-schema file.
use vstd::prelude::*;

use crate::json::JsonValue;
use crate::remote::{normalize_string_list, normalized_list};
use crate::schema::{
    attribute_keys, contains_str, index_keys, AttributeSpec, CollectionSpec, DocumentSchemaFile,
    IndexSpec,
};
use crate::text::{
    law_normalized_identifier_idempotent, lemma_views_push_take, normalize_identifier,
    normalized_identifier, owned, str_eq, str_views,
};

verus! {

/// Why an edit of a document-schema file is refused.
pub enum EditError {
    /// A collection with this normalized id exists already.
    CollectionExists { id: String },
    /// No collection has this normalized id.
    CollectionNotFound { id: String },
    /// The collection has an attribute with this normalized key already.
    AttributeExists { key: String, collection: String },
    /// The collection has an index with this normalized key already.
    IndexExists { key: String, collection: String },
    /// An index needs at least one attribute.
    IndexNeedsAttribute,
    /// An index names an attribute that the collection does not have.
    AttributeNotInCollection { attribute: String, collection: String },
    /// Orders were given, but not one per attribute.
    OrdersCountMismatch,
    /// The attribute type is none that a document schema knows.
    UnsupportedAttributeType { attr_type: String },
}

/// The position of the first collection whose normalized id is `id`.
pub open spec fn collection_position(cs: Seq<CollectionSpec>, id: Seq<char>) -> Option<int>
    decreases cs.len(),
{
    if cs.len() == 0 {
        None
    } else {
        match collection_position(cs.drop_last(), id) {
            Some(p) => Some(p),
            None => if normalized_identifier(cs.last().id@) == id {
                Some(cs.len() - 1)
            } else {
                None
            },
        }
    }
}

proof fn lemma_collection_position(cs: Seq<CollectionSpec>, id: Seq<char>)
    ensures
        match collection_position(cs, id) {
            Some(p) => 0 <= p < cs.len() && normalized_identifier(cs[p].id@) == id && forall|
                q: int,
            | 0 <= q < p ==> normalized_identifier(#[trigger] cs[q].id@) != id,
            None => forall|q: int|
                0 <= q < cs.len() ==> normalized_identifier(#[trigger] cs[q].id@) != id,
        },
    decreases cs.len(),
{
    if cs.len() > 0 {
        lemma_collection_position(cs.drop_last(), id);
        assert forall|q: int| 0 <= q < cs.len() - 1 implies cs.drop_last()[q] == cs[q] by {}
    }
}

/// The position of the first collection whose normalized id is `id`.
pub fn find_collection(file: &DocumentSchemaFile, id: &str) -> (r: Option<usize>)
    ensures
        match r {
            Some(p) => collection_position(file.collections@, id@) == Some(p as int),
            None => collection_position(file.collections@, id@) is None,
        },
{
    proof {
        lemma_collection_position(file.collections@, id@);
    }
    let mut i: usize = 0;
    while i < file.collections.len()
        invariant
            i <= file.collections.len(),
            forall|q: int|
                0 <= q < i ==> normalized_identifier(#[trigger] file.collections@[q].id@) != id@,
            match collection_position(file.collections@, id@) {
                Some(p) => 0 <= p < file.collections@.len() && normalized_identifier(
                    file.collections@[p].id@,
                ) == id@ && forall|q: int|
                    0 <= q < p ==> normalized_identifier(#[trigger] file.collections@[q].id@)
                        != id@,
                None => forall|q: int|
                    0 <= q < file.collections@.len() ==> normalized_identifier(
                        #[trigger] file.collections@[q].id@,
                    ) != id@,
            },
        decreases file.collections.len() - i,
    {
        let n = normalize_identifier(file.collections[i].id.as_str());
        if str_eq(n.as_str(), id) {
            proof {
                match collection_position(file.collections@, id@) {
                    Some(p) => {
                        if p < i {
                        } else if p > i {
                            assert(normalized_identifier(file.collections@[i as int].id@) != id@);
                        }
                    },
                    None => {
                        assert(normalized_identifier(file.collections@[i as int].id@) != id@);
                    },
                }
            }
            return Some(i);
        }
        i = i + 1;
    }
    proof {
        match collection_position(file.collections@, id@) {
            Some(p) => {
                assert(normalized_identifier(file.collections@[p].id@) != id@);
            },
            None => {},
        }
    }
    None
}

/// Adds a new, enabled collection without attributes, indexes or
/// permissions. `id` is the normalized collection id.
pub fn add_collection(
    file: &mut DocumentSchemaFile,
    id: &str,
    name: String,
    document_security: bool,
) -> (r: Result<(), EditError>)
    ensures
        final(file).schema == old(file).schema,
        match r {
            Ok(()) => {
                &&& collection_position(old(file).collections@, id@) is None
                &&& final(file).collections@.len() == old(file).collections@.len() + 1
                &&& final(file).collections@.drop_last() == old(file).collections@
                &&& final(file).collections@.last().id@ == id@
                &&& final(file).collections@.last().name == name
                &&& final(file).collections@.last().enabled
                &&& final(file).collections@.last().document_security == document_security
                &&& final(file).collections@.last().permissions@.len() == 0
                &&& final(file).collections@.last().attributes@.len() == 0
                &&& final(file).collections@.last().indexes@.len() == 0
            },
            Err(e) => {
                &&& collection_position(old(file).collections@, id@) is Some
                &&& final(file).collections == old(file).collections
                &&& e matches EditError::CollectionExists { id: x }
                &&& x@ == id@
            },
        },
{
    match find_collection(file, id) {
        Some(_) => Err(EditError::CollectionExists { id: owned(id) }),
        None => {
            let c = CollectionSpec {
                id: owned(id),
                name,
                enabled: true,
                document_security,
                permissions: Vec::new(),
                attributes: Vec::new(),
                indexes: Vec::new(),
            };
            file.collections.push(c);
            proof {
                assert(file.collections@.drop_last() == old(file).collections@);
            }
            Ok(())
        },
    }
}

/// Whether a collection is kept when the collection `id` is removed.
pub open spec fn kept_collection(id: Seq<char>) -> spec_fn(CollectionSpec) -> bool {
    |c: CollectionSpec| normalized_identifier(c.id@) != id
}

/// Removes every collection whose normalized id is `id`.
pub fn remove_collection(file: &mut DocumentSchemaFile, id: &str) -> (r: Result<(), EditError>)
    ensures
        final(file).schema == old(file).schema,
        final(file).collections@ == old(file).collections@.filter(kept_collection(id@)),
        r is Ok <==> final(file).collections@.len() < old(file).collections@.len(),
        r matches Err(e) ==> (e matches EditError::CollectionNotFound { id: x } && x@ == id@),
{
    let mut rest: Vec<CollectionSpec> = Vec::new();
    std::mem::swap(&mut rest, &mut file.collections);
    let ghost orig = rest@;
    proof {
        assert(orig.len() == rest.len());
    }
    let mut kept: Vec<CollectionSpec> = Vec::new();
    let mut i: usize = 0;
    proof {
        assert(orig.skip(0) == orig);
        reveal(Seq::filter);
        assert(orig.take(0).filter(kept_collection(id@)) == Seq::<CollectionSpec>::empty());
    }
    while rest.len() > 0
        invariant
            i <= orig.len(),
            orig.len() <= usize::MAX,
            rest@ == orig.skip(i as int),
            kept@ == orig.take(i as int).filter(kept_collection(id@)),
        decreases rest.len(),
    {
        proof {
            assert(rest@.len() == orig.len() - i);
        }
        let c = rest.remove(0);
        let n = normalize_identifier(c.id.as_str());
        proof {
            assert(c == orig[i as int]);
            assert(orig.take(i + 1).drop_last() == orig.take(i as int));
            assert(orig.take(i + 1).last() == orig[i as int]);
            assert(orig.skip(i + 1) == orig.skip(i as int).drop_first());
            reveal(Seq::filter);
        }
        if !str_eq(n.as_str(), id) {
            kept.push(c);
        }
        i = i + 1;
    }
    proof {
        assert(orig.take(i as int) == orig);
        orig.lemma_filter_len(kept_collection(id@));
    }
    let before = i;
    let after = kept.len();
    file.collections = kept;
    if after < before {
        Ok(())
    } else {
        Err(EditError::CollectionNotFound { id: owned(id) })
    }
}

/// Checks that the collection `collection_id` exists and has no attribute
/// with the normalized key `key`; gives the collection's position.
pub fn check_new_attribute(file: &DocumentSchemaFile, collection_id: &str, key: &str) -> (r: Result<
    usize,
    EditError,
>)
    ensures
        match r {
            Ok(p) => p < file.collections@.len() && collection_position(
                file.collections@,
                collection_id@,
            ) == Some(p as int) && !attribute_keys(file.collections@[p as int]).contains(key@),
            Err(EditError::CollectionNotFound { id }) => collection_position(
                file.collections@,
                collection_id@,
            ) is None && id@ == collection_id@,
            Err(EditError::AttributeExists { key: k, collection }) => {
                &&& collection_position(file.collections@, collection_id@) matches Some(p)
                &&& attribute_keys(file.collections@[p]).contains(key@)
                &&& k@ == key@
                &&& collection@ == collection_id@
            },
            Err(_) => false,
        },
{
    let p = match find_collection(file, collection_id) {
        Some(p) => p,
        None => {
            return Err(EditError::CollectionNotFound { id: owned(collection_id) });
        },
    };
    proof {
        lemma_collection_position(file.collections@, collection_id@);
    }
    let c = &file.collections[p];
    let mut i: usize = 0;
    while i < c.attributes.len()
        invariant
            i <= c.attributes.len(),
            p < file.collections@.len(),
            *c == file.collections@[p as int],
            collection_position(file.collections@, collection_id@) == Some(p as int),
            forall|q: int| 0 <= q < i ==> attribute_keys(*c)[q] != key@,
        decreases c.attributes.len() - i,
    {
        let k = normalize_identifier(c.attributes[i].key.as_str());
        if str_eq(k.as_str(), key) {
            proof {
                assert(attribute_keys(*c)[i as int] == key@);
            }
            return Err(EditError::AttributeExists { key: owned(key), collection: owned(collection_id) });
        }
        i = i + 1;
    }
    Ok(p)
}

/// Appends an attribute to the collection at position `p`.
pub fn push_attribute(file: &mut DocumentSchemaFile, p: usize, attribute: AttributeSpec)
    requires
        p < old(file).collections@.len(),
    ensures
        final(file).schema == old(file).schema,
        final(file).collections@.len() == old(file).collections@.len(),
        forall|q: int|
            0 <= q < old(file).collections@.len() && q != p
                ==> #[trigger] final(file).collections@[q] == old(file).collections@[q],
        final(file).collections@[p as int].attributes@
            == old(file).collections@[p as int].attributes@.push(
            attribute,
        ),
        final(file).collections@[p as int] == (CollectionSpec {
            attributes: final(file).collections@[p as int].attributes,
            ..old(file).collections@[p as int]
        }),
{
    let mut c = file.collections.remove(p);
    c.attributes.push(attribute);
    file.collections.insert(p, c);
    proof {
        assert forall|q: int|
            0 <= q < old(file).collections@.len() && q != p implies #[trigger] file.collections@[q]
            == old(file).collections@[q] by {}
    }
}

/// Checks that every attribute an index names exists in the collection.
pub fn ensure_index_attributes_exist(c: &CollectionSpec, attributes: &Vec<String>) -> (r: Result<
    (),
    EditError,
>)
    ensures
        match r {
            Ok(()) => forall|k: int|
                0 <= k < attributes@.len() ==> attribute_keys(*c).contains(
                    normalized_identifier(#[trigger] attributes@[k]@),
                ),
            Err(EditError::AttributeNotInCollection { attribute, collection }) => exists|k: int|
                {
                    &&& 0 <= k < attributes@.len()
                    &&& !attribute_keys(*c).contains(normalized_identifier(attributes@[k]@))
                    &&& forall|j: int|
                        0 <= j < k ==> attribute_keys(*c).contains(
                            normalized_identifier(#[trigger] attributes@[j]@),
                        )
                    &&& attribute@ == attributes@[k]@
                    &&& collection@ == c.id@
                },
            Err(_) => false,
        },
{
    let mut existing: Vec<String> = Vec::new();
    let mut i: usize = 0;
    while i < c.attributes.len()
        invariant
            i <= c.attributes.len(),
            str_views(existing@) == attribute_keys(*c).take(i as int),
        decreases c.attributes.len() - i,
    {
        let ghost before = existing@;
        existing.push(normalize_identifier(c.attributes[i].key.as_str()));
        proof {
            lemma_views_push_take(before, existing@, attribute_keys(*c), i as int);
        }
        i = i + 1;
    }
    proof {
        assert(attribute_keys(*c).take(c.attributes@.len() as int) == attribute_keys(*c));
    }
    let mut k: usize = 0;
    while k < attributes.len()
        invariant
            k <= attributes.len(),
            str_views(existing@) == attribute_keys(*c),
            forall|j: int|
                0 <= j < k ==> attribute_keys(*c).contains(
                    normalized_identifier(#[trigger] attributes@[j]@),
                ),
        decreases attributes.len() - k,
    {
        let n = normalize_identifier(attributes[k].as_str());
        if !contains_str(&existing, n.as_str()) {
            return Err(
                EditError::AttributeNotInCollection {
                    attribute: owned(attributes[k].as_str()),
                    collection: owned(c.id.as_str()),
                },
            );
        }
        k = k + 1;
    }
    Ok(())
}

/// Checks that the collection `collection_id` exists and has no index with
/// the normalized key `key`; gives the collection's position.
pub fn check_new_index(file: &DocumentSchemaFile, collection_id: &str, key: &str) -> (r: Result<
    usize,
    EditError,
>)
    ensures
        match r {
            Ok(p) => p < file.collections@.len() && collection_position(
                file.collections@,
                collection_id@,
            ) == Some(p as int) && !index_keys(file.collections@[p as int]).contains(key@),
            Err(EditError::CollectionNotFound { id }) => collection_position(
                file.collections@,
                collection_id@,
            ) is None && id@ == collection_id@,
            Err(EditError::IndexExists { key: k, collection }) => {
                &&& collection_position(file.collections@, collection_id@) matches Some(p)
                &&& index_keys(file.collections@[p]).contains(key@)
                &&& k@ == key@
                &&& collection@ == collection_id@
            },
            Err(_) => false,
        },
{
    let p = match find_collection(file, collection_id) {
        Some(p) => p,
        None => {
            return Err(EditError::CollectionNotFound { id: owned(collection_id) });
        },
    };
    proof {
        lemma_collection_position(file.collections@, collection_id@);
    }
    let c = &file.collections[p];
    let mut i: usize = 0;
    while i < c.indexes.len()
        invariant
            i <= c.indexes.len(),
            p < file.collections@.len(),
            *c == file.collections@[p as int],
            collection_position(file.collections@, collection_id@) == Some(p as int),
            forall|q: int| 0 <= q < i ==> index_keys(*c)[q] != key@,
        decreases c.indexes.len() - i,
    {
        let k = normalize_identifier(c.indexes[i].key.as_str());
        if str_eq(k.as_str(), key) {
            proof {
                assert(index_keys(*c)[i as int] == key@);
            }
            return Err(EditError::IndexExists { key: owned(key), collection: owned(collection_id) });
        }
        i = i + 1;
    }
    Ok(p)
}

/// The orders of a new index: `ASC` for every attribute when none are given,
/// otherwise the given ones, which must be one per attribute.
pub fn index_orders(given: &Vec<String>, attribute_count: usize) -> (r: Result<Vec<String>, EditError>)
    ensures
        match r {
            Ok(orders) => if given@.len() == 0 {
                str_views(orders@) == Seq::new(attribute_count as nat, |i: int| "ASC"@)
            } else {
                given@.len() == attribute_count && str_views(orders@) == str_views(given@)
            },
            Err(e) => given@.len() != 0 && given@.len() != attribute_count
                && e is OrdersCountMismatch,
        },
{
    let mut out: Vec<String> = Vec::new();
    if given.len() == 0 {
        let mut i: usize = 0;
        while i < attribute_count
            invariant
                i <= attribute_count,
                str_views(out@) == Seq::new(i as nat, |k: int| "ASC"@),
            decreases attribute_count - i,
        {
            let ghost before = out@;
            out.push(owned("ASC"));
            proof {
                assert(Seq::new(i as nat, |k: int| "ASC"@) == Seq::new(
                    (i + 1) as nat,
                    |k: int| "ASC"@,
                ).take(i as int));
                lemma_views_push_take(
                    before,
                    out@,
                    Seq::new((i + 1) as nat, |k: int| "ASC"@),
                    i as int,
                );
                assert(Seq::new((i + 1) as nat, |k: int| "ASC"@).take(i + 1) == Seq::new(
                    (i + 1) as nat,
                    |k: int| "ASC"@,
                ));
            }
            i = i + 1;
        }
        Ok(out)
    } else if given.len() != attribute_count {
        Err(EditError::OrdersCountMismatch)
    } else {
        let mut i: usize = 0;
        while i < given.len()
            invariant
                i <= given.len(),
                str_views(out@) == str_views(given@).take(i as int),
            decreases given.len() - i,
        {
            let ghost before = out@;
            out.push(owned(given[i].as_str()));
            proof {
                lemma_views_push_take(before, out@, str_views(given@), i as int);
            }
            i = i + 1;
        }
        proof {
            assert(str_views(given@).take(given@.len() as int) == str_views(given@));
        }
        Ok(out)
    }
}

/// Adds an index to the collection at position `p`: its attributes are the
/// normalized, non-empty forms of `attributes`, which must name attributes of
/// the collection; its orders follow `index_orders`.
pub fn add_index(
    file: &mut DocumentSchemaFile,
    p: usize,
    key: String,
    index_type: String,
    attributes: &Vec<String>,
    orders: &Vec<String>,
) -> (r: Result<(), EditError>)
    requires
        p < old(file).collections@.len(),
    ensures
        final(file).schema == old(file).schema,
        final(file).collections@.len() == old(file).collections@.len(),
        forall|q: int|
            0 <= q < old(file).collections@.len() && q != p
                ==> #[trigger] final(file).collections@[q] == old(file).collections@[q],
        ({
            let c = old(file).collections@[p as int];
            let refs = normalized_list(attributes@);
            match r {
                Ok(()) => {
                    let idx = final(file).collections@[p as int].indexes@.last();
                    &&& refs.len() > 0
                    &&& forall|k: int|
                        0 <= k < refs.len() ==> attribute_keys(c).contains(
                            normalized_identifier(#[trigger] refs[k]),
                        )
                    &&& final(file).collections@[p as int].indexes@.drop_last() == c.indexes@
                    &&& final(file).collections@[p as int] == (CollectionSpec {
                        indexes: final(file).collections@[p as int].indexes,
                        ..c
                    })
                    &&& idx.key == key
                    &&& idx.index_type == index_type
                    &&& str_views(idx.attributes@) == refs
                    &&& (if orders@.len() == 0 {
                        str_views(idx.orders@) == Seq::new(refs.len(), |i: int| "ASC"@)
                    } else {
                        orders@.len() == refs.len() && str_views(idx.orders@) == str_views(orders@)
                    })
                    &&& idx.status is None
                    &&& idx.error is None
                },
                Err(EditError::IndexNeedsAttribute) => refs.len() == 0
                    && final(file).collections == old(file).collections,
                Err(EditError::AttributeNotInCollection { attribute, collection }) => {
                    &&& refs.len() > 0
                    &&& exists|k: int|
                        {
                            &&& 0 <= k < refs.len()
                            &&& !attribute_keys(c).contains(normalized_identifier(refs[k]))
                            &&& forall|j: int|
                                0 <= j < k ==> attribute_keys(c).contains(
                                    normalized_identifier(#[trigger] refs[j]),
                                )
                            &&& attribute@ == refs[k]
                        }
                    &&& collection@ == c.id@
                    &&& final(file).collections == old(file).collections
                },
                Err(EditError::OrdersCountMismatch) => {
                    &&& refs.len() > 0
                    &&& forall|k: int|
                        0 <= k < refs.len() ==> attribute_keys(c).contains(
                            normalized_identifier(#[trigger] refs[k]),
                        )
                    &&& orders@.len() != 0 && orders@.len() != refs.len()
                    &&& final(file).collections == old(file).collections
                },
                Err(_) => false,
            }
        }),
{
    let refs = normalize_string_list(attributes);
    if refs.len() == 0 {
        return Err(EditError::IndexNeedsAttribute);
    }
    match ensure_index_attributes_exist(&file.collections[p], &refs) {
        Ok(()) => {},
        Err(e) => {
            proof {
                match e {
                    EditError::AttributeNotInCollection { ref attribute, ref collection } => {
                        let k = choose|k: int|
                            {
                                &&& 0 <= k < refs@.len()
                                &&& !attribute_keys(file.collections@[p as int]).contains(
                                    normalized_identifier(refs@[k]@),
                                )
                                &&& forall|j: int|
                                    0 <= j < k ==> attribute_keys(
                                        file.collections@[p as int],
                                    ).contains(normalized_identifier(#[trigger] refs@[j]@))
                                &&& attribute@ == refs@[k]@
                                &&& collection@ == file.collections@[p as int].id@
                            };
                        assert(str_views(refs@)[k] == refs@[k]@);
                        assert forall|j: int| 0 <= j < k implies attribute_keys(
                            file.collections@[p as int],
                        ).contains(normalized_identifier(#[trigger] str_views(refs@)[j])) by {
                            assert(str_views(refs@)[j] == refs@[j]@);
                        }
                    },
                    _ => {},
                }
            }
            return Err(e);
        },
    }
    proof {
        assert forall|k: int| 0 <= k < refs@.len() implies attribute_keys(
            file.collections@[p as int],
        ).contains(normalized_identifier(#[trigger] normalized_list(attributes@)[k])) by {
            assert(str_views(refs@)[k] == refs@[k]@);
        }
    }
    let ord = index_orders(orders, refs.len())?;
    let idx = IndexSpec { key, index_type, attributes: refs, orders: ord, status: None, error: None };
    let mut c = file.collections.remove(p);
    c.indexes.push(idx);
    file.collections.insert(p, c);
    proof {
        assert forall|q: int|
            0 <= q < old(file).collections@.len() && q != p implies #[trigger] file.collections@[q]
            == old(file).collections@[q] by {}
        assert(file.collections@[p as int].indexes@.drop_last()
            == old(file).collections@[p as int].indexes@);
    }
    Ok(())
}


/// Law: a collection added under the normalized id of `name` is found under
/// that id afterwards, at the end.
pub proof fn law_added_collection_is_found(
    before: Seq<CollectionSpec>,
    after: Seq<CollectionSpec>,
    name: Seq<char>,
)
    requires
        collection_position(before, normalized_identifier(name)) is None,
        after.len() == before.len() + 1,
        after.drop_last() == before,
        after.last().id@ == normalized_identifier(name),
    ensures
        collection_position(after, normalized_identifier(name)) == Some(before.len() as int),
{
    law_normalized_identifier_idempotent(name);
}

/// Law: once the collection `id` is removed, no collection is found under
/// that id.
pub proof fn law_removed_collection_is_gone(before: Seq<CollectionSpec>, id: Seq<char>)
    ensures
        collection_position(before.filter(kept_collection(id)), id) is None,
{
    let after = before.filter(kept_collection(id));
    lemma_collection_position(after, id);
    broadcast use Seq::lemma_filter_pred;
    if collection_position(after, id) is Some {
        let p = collection_position(after, id)->Some_0;
        assert(kept_collection(id)(after[p]));
    }
}

proof fn lemma_filter_keeps_all(cs: Seq<CollectionSpec>, id: Seq<char>)
    requires
        forall|q: int| 0 <= q < cs.len() ==> normalized_identifier(#[trigger] cs[q].id@) != id,
    ensures
        cs.filter(kept_collection(id)) == cs,
    decreases cs.len(),
{
    reveal(Seq::filter);
    if cs.len() > 0 {
        let d = cs.drop_last();
        assert forall|q: int| 0 <= q < d.len() implies normalized_identifier(#[trigger] d[q].id@)
            != id by {
            assert(d[q] == cs[q]);
        }
        lemma_filter_keeps_all(d, id);
        assert(normalized_identifier(cs[cs.len() - 1].id@) != id);
        assert(d.push(cs.last()) == cs);
    }
}

/// Law: removing a collection undoes adding it. When no collection has the
/// normalized id of `name`, a collection added under that id is the only one
/// that removing that id takes away: the collections are those from before
/// the addition, and the removal succeeds.
pub proof fn law_remove_undoes_add(
    before: Seq<CollectionSpec>,
    after: Seq<CollectionSpec>,
    name: Seq<char>,
)
    requires
        collection_position(before, normalized_identifier(name)) is None,
        after.len() == before.len() + 1,
        after.drop_last() == before,
        after.last().id@ == normalized_identifier(name),
    ensures
        after.filter(kept_collection(normalized_identifier(name))) == before,
        after.filter(kept_collection(normalized_identifier(name))).len() < after.len(),
{
    let id = normalized_identifier(name);
    reveal(Seq::filter);
    lemma_collection_position(before, id);
    law_normalized_identifier_idempotent(name);
    lemma_filter_keeps_all(before, id);
    assert(!kept_collection(id)(after.last()));
}

// ---------------------------------------------------------------------------
// A new attribute and what its type asks for
// ---------------------------------------------------------------------------

/// A new attribute with the given key, type and flags; the enum values are
/// normalized and the empty ones dropped; nothing else is set.
pub fn new_attribute(
    key: String,
    attr_type: String,
    required: bool,
    array: bool,
    size: Option<u32>,
    default: Option<JsonValue>,
    elements: &Vec<String>,
) -> (r: AttributeSpec)
    ensures
        r.key == key,
        r.attr_type == attr_type,
        r.required == required,
        r.array == array,
        r.size == size,
        r.default == default,
        str_views(r.elements@) == normalized_list(elements@),
        r.format is None,
        r.min is None,
        r.max is None,
        r.related_collection_id is None,
        r.relation_type is None,
        r.two_way is None,
        r.two_way_key is None,
        r.on_delete is None,
        r.encrypt is None,
        r.status is None,
        r.error is None,
        r.new_key is None,
{
    AttributeSpec {
        key,
        attr_type,
        format: None,
        required,
        array,
        size,
        min: None,
        max: None,
        default,
        elements: normalize_string_list(elements),
        related_collection_id: None,
        relation_type: None,
        two_way: None,
        two_way_key: None,
        on_delete: None,
        encrypt: None,
        status: None,
        error: None,
        new_key: None,
    }
}

/// What adding an attribute of a type asks for.
#[derive(PartialEq, Eq, Structural, Debug, Clone, Copy)]
pub enum AttributeKind {
    /// `string`: a size, when none is given, and whether to encrypt.
    Text,
    /// `enum`: the values, when none are given.
    Enumeration,
    /// `integer` or `float`: optional bounds.
    Numeric,
    /// `relationship`: the related collection, the relation, what deleting
    /// does, and whether it is two-way (then the key on the other side).
    Relationship,
    /// `email`, `ip`, `url` or `datetime`: nothing; the type is its format.
    Formatted,
    /// `timestamptz` or `boolean`: nothing.
    Plain,
}

/// The kind of an attribute type, if it is one a document schema knows.
pub open spec fn kind_of_type(t: Seq<char>) -> Option<AttributeKind> {
    if t == "string"@ {
        Some(AttributeKind::Text)
    } else if t == "enum"@ {
        Some(AttributeKind::Enumeration)
    } else if t == "integer"@ || t == "float"@ {
        Some(AttributeKind::Numeric)
    } else if t == "relationship"@ {
        Some(AttributeKind::Relationship)
    } else if t == "email"@ || t == "ip"@ || t == "url"@ || t == "datetime"@ {
        Some(AttributeKind::Formatted)
    } else if t == "timestamptz"@ || t == "boolean"@ {
        Some(AttributeKind::Plain)
    } else {
        None
    }
}

/// Law: the kind of each attribute type a document schema knows: `string`
/// is text; `enum` an enumeration; `integer` and `float` numeric;
/// `relationship` a relationship; `email`, `ip`, `url` and `datetime` take
/// their type as format; `timestamptz` and `boolean` need nothing. No other
/// type is known.
pub proof fn law_attribute_kinds(t: Seq<char>)
    ensures
        kind_of_type("string"@) == Some(AttributeKind::Text),
        kind_of_type("enum"@) == Some(AttributeKind::Enumeration),
        kind_of_type("integer"@) == Some(AttributeKind::Numeric),
        kind_of_type("float"@) == Some(AttributeKind::Numeric),
        kind_of_type("relationship"@) == Some(AttributeKind::Relationship),
        kind_of_type("email"@) == Some(AttributeKind::Formatted),
        kind_of_type("ip"@) == Some(AttributeKind::Formatted),
        kind_of_type("url"@) == Some(AttributeKind::Formatted),
        kind_of_type("datetime"@) == Some(AttributeKind::Formatted),
        kind_of_type("timestamptz"@) == Some(AttributeKind::Plain),
        kind_of_type("boolean"@) == Some(AttributeKind::Plain),
        t != "string"@ && t != "enum"@ && t != "integer"@ && t != "float"@ && t != "relationship"@ && t != "email"@ && t != "ip"@ && t != "url"@ && t != "datetime"@ && t != "timestamptz"@ && t != "boolean"@ ==> kind_of_type(t) is None,
{
    reveal_strlit("string");
    reveal_strlit("enum");
    reveal_strlit("integer");
    reveal_strlit("float");
    reveal_strlit("relationship");
    reveal_strlit("email");
    reveal_strlit("ip");
    reveal_strlit("url");
    reveal_strlit("datetime");
    reveal_strlit("timestamptz");
    reveal_strlit("boolean");
    assert("string"@.len() == 6 && "string"@[0] == 's');
    assert("enum"@.len() == 4 && "enum"@[0] == 'e');
    assert("integer"@.len() == 7 && "integer"@[0] == 'i');
    assert("float"@.len() == 5 && "float"@[0] == 'f');
    assert("relationship"@.len() == 12 && "relationship"@[0] == 'r');
    assert("email"@.len() == 5 && "email"@[0] == 'e');
    assert("ip"@.len() == 2 && "ip"@[0] == 'i');
    assert("url"@.len() == 3 && "url"@[0] == 'u');
    assert("datetime"@.len() == 8 && "datetime"@[0] == 'd');
    assert("timestamptz"@.len() == 11 && "timestamptz"@[0] == 't');
    assert("boolean"@.len() == 7 && "boolean"@[0] == 'b');
}

/// The kind of an attribute type; refused for a type a document schema does
/// not know.
pub fn attribute_kind(attr_type: &str) -> (r: Result<AttributeKind, EditError>)
    ensures
        match kind_of_type(attr_type@) {
            Some(k) => r == Ok::<AttributeKind, EditError>(k),
            None => r matches Err(EditError::UnsupportedAttributeType { attr_type: t }) && t@
                == attr_type@,
        },
{
    if str_eq(attr_type, "string") {
        Ok(AttributeKind::Text)
    } else if str_eq(attr_type, "enum") {
        Ok(AttributeKind::Enumeration)
    } else if str_eq(attr_type, "integer") || str_eq(attr_type, "float") {
        Ok(AttributeKind::Numeric)
    } else if str_eq(attr_type, "relationship") {
        Ok(AttributeKind::Relationship)
    } else if str_eq(attr_type, "email") || str_eq(attr_type, "ip") || str_eq(attr_type, "url")
        || str_eq(attr_type, "datetime") {
        Ok(AttributeKind::Formatted)
    } else if str_eq(attr_type, "timestamptz") || str_eq(attr_type, "boolean") {
        Ok(AttributeKind::Plain)
    } else {
        Err(EditError::UnsupportedAttributeType { attr_type: owned(attr_type) })
    }
}

/// The attribute types, in the order in which they are offered.
pub open spec fn attribute_type_names() -> Seq<Seq<char>> {
    seq![
        "string"@,
        "integer"@,
        "float"@,
        "boolean"@,
        "datetime"@,
        "timestamptz"@,
        "email"@,
        "url"@,
        "ip"@,
        "enum"@,
        "relationship"@,
    ]
}

/// The name of the attribute type at position `i`.
pub fn attribute_type_name(i: usize) -> (r: &'static str)
    requires
        i < 11,
    ensures
        r@ == attribute_type_names()[i as int],
{
    if i == 0 {
        "string"
    } else if i == 1 {
        "integer"
    } else if i == 2 {
        "float"
    } else if i == 3 {
        "boolean"
    } else if i == 4 {
        "datetime"
    } else if i == 5 {
        "timestamptz"
    } else if i == 6 {
        "email"
    } else if i == 7 {
        "url"
    } else if i == 8 {
        "ip"
    } else if i == 9 {
        "enum"
    } else {
        "relationship"
    }
}

/// The index types, in the order in which they are offered.
pub open spec fn index_type_names() -> Seq<Seq<char>> {
    seq!["key"@, "unique"@, "fulltext"@]
}

/// The name of the index type at position `i`.
pub fn index_type_name(i: usize) -> (r: &'static str)
    requires
        i < 3,
    ensures
        r@ == index_type_names()[i as int],
{
    if i == 0 {
        "key"
    } else if i == 1 {
        "unique"
    } else {
        "fulltext"
    }
}

/// The string size offered, and taken without asking.
pub const DEFAULT_STRING_SIZE: u32 = 255;

/// The relation offered, and taken without asking: `manyToOne`.
pub const DEFAULT_RELATION: usize = 2;

/// What deleting does, offered and taken without asking: `restrict`.
pub const DEFAULT_ON_DELETE: usize = 0;

/// The relations, in the order in which they are offered.
pub open spec fn relation_names() -> Seq<Seq<char>> {
    seq!["oneToOne"@, "oneToMany"@, "manyToOne"@, "manyToMany"@]
}

/// What deleting a related document does, in the order offered.
pub open spec fn on_delete_names() -> Seq<Seq<char>> {
    seq!["restrict"@, "cascade"@, "setNull"@]
}

/// The name of the relation at position `i`.
pub fn relation_name(i: usize) -> (r: &'static str)
    requires
        i < 4,
    ensures
        r@ == relation_names()[i as int],
{
    if i == 0 {
        "oneToOne"
    } else if i == 1 {
        "oneToMany"
    } else if i == 2 {
        "manyToOne"
    } else {
        "manyToMany"
    }
}

/// The name of what deleting does at position `i`.
pub fn on_delete_name(i: usize) -> (r: &'static str)
    requires
        i < 3,
    ensures
        r@ == on_delete_names()[i as int],
{
    if i == 0 {
        "restrict"
    } else if i == 1 {
        "cascade"
    } else {
        "setNull"
    }
}

/// The answers to what an attribute's kind asks for; a field that its kind
/// does not ask for is not read.
pub struct AttributeAnswers {
    /// The string size asked for.
    pub string_size: u32,
    /// Whether to encrypt a string.
    pub encrypt: bool,
    /// The enum values asked for.
    pub elements: Vec<String>,
    /// The lower bound, as decimal text, if one was given and is a number.
    pub min: Option<String>,
    /// The upper bound, likewise.
    pub max: Option<String>,
    /// The related collection.
    pub related_collection_id: String,
    /// The position of the relation among `relation_names()`.
    pub relation: usize,
    /// The position of what deleting does among `on_delete_names()`.
    pub on_delete: usize,
    /// Whether the relationship is two-way.
    pub two_way: bool,
    /// The key on the related collection, for a two-way relationship.
    pub two_way_key: Option<String>,
}

/// `a` and `b` agree on every field but those `kind` sets.
pub open spec fn unchanged_but_kind(a: AttributeSpec, b: AttributeSpec, kind: AttributeKind) -> bool {
    &&& b.key == a.key
    &&& b.attr_type == a.attr_type
    &&& b.required == a.required
    &&& b.array == a.array
    &&& b.default == a.default
    &&& b.status == a.status
    &&& b.error == a.error
    &&& b.new_key == a.new_key
    &&& (kind != AttributeKind::Text ==> b.size == a.size && b.encrypt == a.encrypt)
    &&& (kind != AttributeKind::Enumeration ==> b.elements == a.elements)
    &&& (kind != AttributeKind::Numeric ==> b.min == a.min && b.max == a.max)
    &&& (kind != AttributeKind::Formatted ==> b.format == a.format)
    &&& (kind != AttributeKind::Relationship ==> {
        &&& b.related_collection_id == a.related_collection_id
        &&& b.relation_type == a.relation_type
        &&& b.on_delete == a.on_delete
        &&& b.two_way == a.two_way
        &&& b.two_way_key == a.two_way_key
    })
}

/// Sets what an attribute's type calls for from the answers: a string gets
/// the size asked for (at least 1) when it has none, and whether it is
/// encrypted; an enum gets the values asked for when it has none; a number
/// gets its bounds; a relationship gets its related collection, relation,
/// delete behaviour and two-way flag (and the key on the other side when it
/// is two-way); `email`, `ip`, `url` and `datetime` get their type as
/// format. An unknown type is refused and the attribute left as it was.
pub fn apply_attribute_defaults_for_type(spec: &mut AttributeSpec, answers: AttributeAnswers) -> (r:
    Result<(), EditError>)
    requires
        answers.relation < 4,
        answers.on_delete < 3,
    ensures
        match kind_of_type(old(spec).attr_type@) {
            None => *final(spec) == *old(spec) && (r matches Err(
                EditError::UnsupportedAttributeType { attr_type: t },
            ) && t@ == old(spec).attr_type@),
            Some(kind) => {
                &&& r is Ok
                &&& unchanged_but_kind(*old(spec), *final(spec), kind)
                &&& kind == AttributeKind::Text ==> {
                    &&& final(spec).size == match old(spec).size {
                        Some(s) => Some(s),
                        None => Some(if answers.string_size >= 1 {
                            answers.string_size
                        } else {
                            1u32
                        }),
                    }
                    &&& final(spec).encrypt == Some(answers.encrypt)
                }
                &&& kind == AttributeKind::Enumeration ==> final(spec).elements
                    == if old(spec).elements@.len() == 0 {
                    answers.elements
                } else {
                    old(spec).elements
                }
                &&& kind == AttributeKind::Numeric ==> final(spec).min == answers.min
                    && final(spec).max == answers.max
                &&& kind == AttributeKind::Relationship ==> {
                    &&& final(spec).related_collection_id == Some(answers.related_collection_id)
                    &&& (final(spec).relation_type matches Some(x) && x@
                        == relation_names()[answers.relation as int])
                    &&& (final(spec).on_delete matches Some(x) && x@
                        == on_delete_names()[answers.on_delete as int])
                    &&& final(spec).two_way == Some(answers.two_way)
                    &&& final(spec).two_way_key == if answers.two_way {
                        answers.two_way_key
                    } else {
                        old(spec).two_way_key
                    }
                }
                &&& kind == AttributeKind::Formatted ==> (final(spec).format matches Some(f) && f@
                    == old(spec).attr_type@)
            },
        },
{
    let kind = match attribute_kind(spec.attr_type.as_str()) {
        Ok(k) => k,
        Err(e) => {
            return Err(e);
        },
    };
    match kind {
        AttributeKind::Text => {
            if spec.size.is_none() {
                let v = if answers.string_size >= 1 {
                    answers.string_size
                } else {
                    1
                };
                spec.size = Some(v);
            }
            spec.encrypt = Some(answers.encrypt);
        },
        AttributeKind::Enumeration => {
            if spec.elements.len() == 0 {
                spec.elements = answers.elements;
            }
        },
        AttributeKind::Numeric => {
            spec.min = answers.min;
            spec.max = answers.max;
        },
        AttributeKind::Relationship => {
            spec.related_collection_id = Some(answers.related_collection_id);
            spec.relation_type = Some(owned(relation_name(answers.relation)));
            spec.on_delete = Some(owned(on_delete_name(answers.on_delete)));
            spec.two_way = Some(answers.two_way);
            if answers.two_way {
                spec.two_way_key = answers.two_way_key;
            }
        },
        AttributeKind::Formatted => {
            spec.format = Some(owned(spec.attr_type.as_str()));
        },
        AttributeKind::Plain => {},
    }
    Ok(())
}

} // verus!
