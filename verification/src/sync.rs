//! What push does to bring the server in line with the local schema file:
//! which collections, attributes and indexes it creates, updates, recreates
//! or offers to delete.
use vstd::prelude::*;

use crate::json::{
    fields_json, json_str, json_str_list, object, push_field, str_list_json, Json, JsonValue,
};
use crate::payload::{
    carries, create_attribute_payload, create_attribute_payload_spec, lemma_carries_all,
    update_attribute_payload, update_attribute_payload_spec, PayloadIssue,
};
use crate::remote::{RemoteCollection, RemoteIndex};
use crate::schema::{normalize_all, normalized_all, AttributeSpec, CollectionSpec, IndexSpec};
use crate::strmap::{seq_lt, sorted_keys, StrMap};
use crate::text::{
    lemma_views_push_take, normalize_identifier, normalized_identifier, owned, str_eq, str_views,
};

verus! {

// ---------------------------------------------------------------------------
// Remote entries missing locally
// ---------------------------------------------------------------------------

/// What becomes of the remote entries that are missing locally, once the
/// question whether to delete them has been answered: they are deleted when
/// the deletion was confirmed outside a dry run, and only reported when it
/// was confirmed in a dry run. Nothing is deleted in a dry run or without
/// confirmation.
pub struct StaleDeletion {
    /// The entries whose deletion requests are sent.
    pub delete: Vec<String>,
    /// The entries whose deletion a dry run reports.
    pub report: Vec<String>,
}

fn copied(v: &Vec<String>) -> (r: Vec<String>)
    ensures
        str_views(r@) == str_views(v@),
{
    let mut out: Vec<String> = Vec::new();
    let mut i: usize = 0;
    while i < v.len()
        invariant
            i <= v.len(),
            str_views(out@) == str_views(v@).take(i as int),
        decreases v.len() - i,
    {
        let ghost before = out@;
        out.push(owned(v[i].as_str()));
        proof {
            lemma_views_push_take(before, out@, str_views(v@), i as int);
        }
        i = i + 1;
    }
    proof {
        assert(str_views(v@).take(v@.len() as int) == str_views(v@));
    }
    out
}

/// The deletions of stale entries that are sent and those that are reported.
pub fn stale_deletion(stale: &Vec<String>, confirmed: bool, dry_run: bool) -> (r: StaleDeletion)
    ensures
        str_views(r.delete@) == if confirmed && !dry_run {
            str_views(stale@)
        } else {
            Seq::<Seq<char>>::empty()
        },
        str_views(r.report@) == if confirmed && dry_run {
            str_views(stale@)
        } else {
            Seq::<Seq<char>>::empty()
        },
{
    let none: Vec<String> = Vec::new();
    proof {
        assert(str_views(none@) =~= Seq::<Seq<char>>::empty());
    }
    if !confirmed {
        StaleDeletion { delete: Vec::new(), report: none }
    } else if dry_run {
        StaleDeletion { delete: none, report: copied(stale) }
    } else {
        StaleDeletion { delete: copied(stale), report: none }
    }
}

/// `stale` lists, ascending and once each, the keys of `remote` that are not
/// in `local`.
pub open spec fn is_stale_listing(
    stale: Seq<Seq<char>>,
    remote: Seq<Seq<char>>,
    local: Seq<Seq<char>>,
) -> bool {
    &&& sorted_keys(stale)
    &&& forall|k: Seq<char>| #[trigger]
        stale.contains(k) <==> (remote.contains(k) && !local.contains(k))
}

/// The keys of `remote` that are not in `local`, ascending and once each.
pub fn stale_keys(remote: &Vec<String>, local: &Vec<String>) -> (out: Vec<String>)
    ensures
        is_stale_listing(str_views(out@), str_views(remote@), str_views(local@)),
{
    let mut seen: StrMap<()> = StrMap::new();
    let mut i: usize = 0;
    while i < remote.len()
        invariant
            i <= remote.len(),
            forall|k: Seq<char>| #[trigger]
                seen.has_key(k) <==> str_views(remote@).take(i as int).contains(k),
        decreases remote.len() - i,
    {
        seen.insert(owned(remote[i].as_str()), ());
        i = i + 1;
        proof {
            let t = str_views(remote@).take(i as int);
            assert(t == str_views(remote@).take(i - 1).push(remote@[i - 1]@));
            assert forall|k: Seq<char>| #[trigger] seen.has_key(k) <==> t.contains(k) by {
                if k != remote@[i - 1]@ {
                    if t.contains(k) {
                        let j = choose|j: int| 0 <= j < t.len() && t[j] == k;
                        assert(str_views(remote@).take(i - 1)[j] == k);
                    }
                } else {
                    assert(t[i - 1] == k);
                }
            }
        }
    }
    proof {
        assert(str_views(remote@).take(remote@.len() as int) == str_views(remote@));
    }
    proof {
        use_type_invariant(&seen);
    }
    let mut out: Vec<String> = Vec::new();
    let mut j: usize = 0;
    let n = seen.len();
    while j < n
        invariant
            seen.wf(),
            j <= n,
            n == seen.entries().len(),
            forall|k: Seq<char>| #[trigger]
                seen.has_key(k) <==> str_views(remote@).contains(k),
            sorted_keys(str_views(out@)),
            forall|a: int, b: int|
                0 <= a < out@.len() && j <= b < n ==> seq_lt(
                    #[trigger] str_views(out@)[a],
                    #[trigger] seen.keys()[b],
                ),
            forall|k: Seq<char>| #[trigger]
                str_views(out@).contains(k) <==> (seen.keys().take(j as int).contains(k)
                    && !str_views(local@).contains(k)),
        decreases n - j,
    {
        let (key, _) = seen.entry_at(j);
        let ghost before = str_views(out@);
        proof {
            assert(seen.keys()[j as int] == key@);
        }
        let keep = !crate::schema::contains_str(local, key.as_str());
        if keep {
            out.push(owned(key.as_str()));
        }
        j = j + 1;
        proof {
            let ks = seen.keys();
            let t = ks.take(j as int);
            assert(t == ks.take(j - 1).push(ks[j - 1]));
            if keep {
                assert(str_views(out@) == before.push(ks[j - 1]));
            } else {
                assert(str_views(out@) == before);
            }
            assert(keep == !str_views(local@).contains(ks[j - 1]));
            assert forall|k: Seq<char>| #[trigger] str_views(out@).contains(k) <==> (t.contains(k)
                && !str_views(local@).contains(k)) by {
                let o = str_views(out@);
                if k == ks[j - 1] {
                    assert(t[j - 1] == k);
                    if keep {
                        assert(o[o.len() - 1] == k);
                    } else {
                        assert(o == before);
                        assert(!before.contains(k));
                    }
                } else {
                    if t.contains(k) {
                        let q = choose|q: int| 0 <= q < t.len() && t[q] == k;
                        assert(ks.take(j - 1)[q] == k);
                        assert(ks.take(j - 1).contains(k));
                    }
                    let u = ks.take(j - 1);
                    if u.contains(k) {
                        let q = choose|q: int| 0 <= q < u.len() && u[q] == k;
                        assert(t[q] == k);
                    }
                    if o.contains(k) {
                        let q = choose|q: int| 0 <= q < o.len() && o[q] == k;
                        assert(before[q] == k);
                        assert(before.contains(k));
                    }
                    if before.contains(k) {
                        let q = choose|q: int| 0 <= q < before.len() && before[q] == k;
                        assert(o[q] == k);
                    }
                }
            }
            assert forall|a: int, b: int|
                0 <= a < out@.len() && j <= b < n implies seq_lt(
                #[trigger] str_views(out@)[a],
                #[trigger] seen.keys()[b],
            ) by {
                if keep && a == out@.len() - 1 {
                } else {
                    assert(str_views(out@)[a] == before[a]);
                }
            }
        }
    }
    proof {
        assert(seen.keys().take(n as int) == seen.keys());
        assert forall|k: Seq<char>| #[trigger] str_views(out@).contains(k) <==> (str_views(
            remote@,
        ).contains(k) && !str_views(local@).contains(k)) by {
            assert(seen.has_key(k) == seen.keys().contains(k));
        }
    }
    out
}

// ---------------------------------------------------------------------------
// Attributes
// ---------------------------------------------------------------------------

/// One attribute request: create it (POST) or update it (PATCH), at the URL
/// segment `typed`, with `body`.
pub struct AttributeAction {
    pub update: bool,
    pub key: String,
    pub typed: String,
    pub body: JsonValue,
}

/// What push does for the attributes of one collection: the requests in
/// order; the problem that stops it before the next attribute, if any; and,
/// when all requests could be built, the remote attributes that are missing
/// locally.
pub struct AttributeSyncPlan {
    pub actions: Vec<AttributeAction>,
    pub failure: Option<PayloadIssue>,
    pub stale: Vec<String>,
}

/// The request for one local attribute, given the normalized remote keys.
pub open spec fn attribute_action_spec(a: AttributeSpec, remote: Seq<Seq<char>>) -> Result<
    (bool, Seq<char>, Seq<char>, Json),
    PayloadIssue,
> {
    let key = normalized_identifier(a.key@);
    match create_attribute_payload_spec(a) {
        Err(e) => Err(e),
        Ok((typed, create)) => if remote.contains(key) {
            match update_attribute_payload_spec(a) {
                Err(e) => Err(e),
                Ok(update) => Ok((true, key, typed, update)),
            }
        } else {
            Ok((false, key, typed, create))
        },
    }
}

pub open spec fn attribute_action_view(a: AttributeAction) -> (bool, Seq<char>, Seq<char>, Json) {
    (a.update, a.key@, a.typed@, a.body.json())
}

/// Plans the attribute requests of one collection. `remote_keys` are the
/// keys of the attributes that the server has.
pub fn plan_attribute_sync(local: &Vec<AttributeSpec>, remote_keys: &Vec<String>) -> (plan:
    AttributeSyncPlan)
    ensures
        plan.actions@.len() <= local@.len(),
        forall|i: int|
            0 <= i < plan.actions@.len() ==> attribute_action_spec(
                #[trigger] local@[i],
                normalized_all(remote_keys@),
            ) == Ok::<(bool, Seq<char>, Seq<char>, Json), PayloadIssue>(
                attribute_action_view(plan.actions@[i]),
            ),
        match plan.failure {
            Some(e) => plan.actions@.len() < local@.len() && attribute_action_spec(
                local@[plan.actions@.len() as int],
                normalized_all(remote_keys@),
            ) == Err::<(bool, Seq<char>, Seq<char>, Json), PayloadIssue>(e)
                && plan.stale@.len() == 0,
            None => plan.actions@.len() == local@.len() && is_stale_listing(
                str_views(plan.stale@),
                normalized_all(remote_keys@),
                local@.map_values(|a: AttributeSpec| normalized_identifier(a.key@)),
            ),
        },
{
    let remote = normalize_all(remote_keys);
    let mut actions: Vec<AttributeAction> = Vec::new();
    let mut i: usize = 0;
    while i < local.len()
        invariant
            i <= local.len(),
            actions@.len() == i,
            str_views(remote@) == normalized_all(remote_keys@),
            forall|k: int|
                0 <= k < i ==> attribute_action_spec(
                    #[trigger] local@[k],
                    normalized_all(remote_keys@),
                ) == Ok::<(bool, Seq<char>, Seq<char>, Json), PayloadIssue>(
                    attribute_action_view(actions@[k]),
                ),
        decreases local.len() - i,
    {
        let attr = &local[i];
        let key = normalize_identifier(attr.key.as_str());
        let (typed, create) = match create_attribute_payload(attr) {
            Ok(p) => p,
            Err(e) => {
                return AttributeSyncPlan { actions, failure: Some(e), stale: Vec::new() };
            },
        };
        if crate::schema::contains_str(&remote, key.as_str()) {
            match update_attribute_payload(attr) {
                Ok(body) => {
                    actions.push(AttributeAction { update: true, key, typed, body });
                },
                Err(e) => {
                    return AttributeSyncPlan { actions, failure: Some(e), stale: Vec::new() };
                },
            }
        } else {
            actions.push(AttributeAction { update: false, key, typed, body: create });
        }
        i = i + 1;
    }
    let mut local_keys: Vec<String> = Vec::new();
    let mut j: usize = 0;
    while j < local.len()
        invariant
            j <= local.len(),
            str_views(local_keys@) == local@.map_values(
                |a: AttributeSpec| normalized_identifier(a.key@),
            ).take(j as int),
        decreases local.len() - j,
    {
        let ghost before = local_keys@;
        local_keys.push(normalize_identifier(local[j].key.as_str()));
        proof {
            lemma_views_push_take(
                before,
                local_keys@,
                local@.map_values(|a: AttributeSpec| normalized_identifier(a.key@)),
                j as int,
            );
        }
        j = j + 1;
    }
    proof {
        assert(local@.map_values(|a: AttributeSpec| normalized_identifier(a.key@)).take(
            local@.len() as int,
        ) == local@.map_values(|a: AttributeSpec| normalized_identifier(a.key@)));
    }
    let stale = stale_keys(&remote, &local_keys);
    AttributeSyncPlan { actions, failure: None, stale }
}

// ---------------------------------------------------------------------------
// Indexes
// ---------------------------------------------------------------------------

/// The orders an index is sent with: its own, or `ASC` for every attribute.
pub open spec fn normalized_orders_spec(idx: IndexSpec) -> Seq<Seq<char>> {
    if idx.orders@.len() == 0 {
        Seq::new(idx.attributes@.len(), |i: int| "ASC"@)
    } else {
        str_views(idx.orders@)
    }
}

/// The orders an index is sent with: its own, or `ASC` for every attribute.
pub fn normalized_orders(idx: &IndexSpec) -> (out: Vec<String>)
    ensures
        str_views(out@) == normalized_orders_spec(*idx),
{
    let mut out: Vec<String> = Vec::new();
    if idx.orders.len() == 0 {
        let mut i: usize = 0;
        while i < idx.attributes.len()
            invariant
                i <= idx.attributes.len(),
                idx.orders@.len() == 0,
                str_views(out@) == Seq::new(i as nat, |k: int| "ASC"@),
            decreases idx.attributes.len() - i,
        {
            let ghost before = out@;
            out.push(owned("ASC"));
            proof {
                assert(Seq::new(i as nat, |k: int| "ASC"@) == Seq::new(
                    (i + 1) as nat,
                    |k: int| "ASC"@,
                ).take(i as int));
                lemma_views_push_take(
                    before,
                    out@,
                    Seq::new((i + 1) as nat, |k: int| "ASC"@),
                    i as int,
                );
                assert(Seq::new((i + 1) as nat, |k: int| "ASC"@).take(i + 1) == Seq::new(
                    (i + 1) as nat,
                    |k: int| "ASC"@,
                ));
            }
            i = i + 1;
        }
    } else {
        let mut i: usize = 0;
        while i < idx.orders.len()
            invariant
                i <= idx.orders.len(),
                str_views(out@) == str_views(idx.orders@).take(i as int),
            decreases idx.orders.len() - i,
        {
            let ghost before = out@;
            out.push(owned(idx.orders[i].as_str()));
            proof {
                lemma_views_push_take(before, out@, str_views(idx.orders@), i as int);
            }
            i = i + 1;
        }
        proof {
            assert(str_views(idx.orders@).take(idx.orders@.len() as int) == str_views(idx.orders@));
        }
    }
    out
}

/// The remote index that the key `k` refers to: the last one listed with that
/// normalized key.
pub open spec fn remote_index_for(remote: Seq<RemoteIndex>, k: Seq<char>) -> Option<RemoteIndex>
    decreases remote.len(),
{
    if remote.len() == 0 {
        None
    } else if normalized_identifier(remote.last().key@) == k {
        Some(remote.last())
    } else {
        remote_index_for(remote.drop_last(), k)
    }
}

/// Whether a remote index already matches a local one.
pub open spec fn index_matches(existing: RemoteIndex, idx: IndexSpec) -> bool {
    &&& existing.index_type@ == idx.index_type@
    &&& str_views(existing.attributes@) == str_views(idx.attributes@)
    &&& str_views(existing.orders@) == normalized_orders_spec(idx)
}

/// The body that creates an index.
pub open spec fn index_payload_spec(idx: IndexSpec) -> Json {
    Json::Object(
        Seq::empty().push(("key"@, Json::Str(normalized_identifier(idx.key@)))).push(
            ("type"@, Json::Str(idx.index_type@)),
        ).push(("attributes"@, str_list_json(idx.attributes@))).push(
            ("orders"@, Json::Array(
                Seq::new(
                    normalized_orders_spec(idx).len(),
                    |i: int| Json::Str(normalized_orders_spec(idx)[i]),
                ),
            )),
        ),
    )
}

proof fn lemma_remote_index_for(remote: Seq<RemoteIndex>, k: Seq<char>)
    ensures
        match remote_index_for(remote, k) {
            None => forall|j: int|
                0 <= j < remote.len() ==> normalized_identifier(#[trigger] remote[j].key@) != k,
            Some(x) => exists|j: int|
                {
                    &&& 0 <= j < remote.len()
                    &&& x == remote[j]
                    &&& normalized_identifier(remote[j].key@) == k
                    &&& forall|l: int|
                        j < l < remote.len() ==> normalized_identifier(#[trigger] remote[l].key@)
                            != k
                },
        },
    decreases remote.len(),
{
    if remote.len() > 0 {
        let d = remote.drop_last();
        lemma_remote_index_for(d, k);
        if normalized_identifier(remote.last().key@) == k {
            assert(remote.last() == remote[remote.len() - 1]);
        } else {
            match remote_index_for(d, k) {
                None => {
                    assert forall|j: int| 0 <= j < remote.len() implies normalized_identifier(
                        #[trigger] remote[j].key@,
                    ) != k by {
                        if j < d.len() {
                            assert(d[j] == remote[j]);
                        }
                    }
                },
                Some(x) => {
                    let j = choose|j: int|
                        {
                            &&& 0 <= j < d.len()
                            &&& x == d[j]
                            &&& normalized_identifier(d[j].key@) == k
                            &&& forall|l: int|
                                j < l < d.len() ==> normalized_identifier(#[trigger] d[l].key@)
                                    != k
                        };
                    assert(d[j] == remote[j]);
                    assert forall|l: int| j < l < remote.len() implies normalized_identifier(
                        #[trigger] remote[l].key@,
                    ) != k by {
                        if l < d.len() {
                            assert(d[l] == remote[l]);
                        }
                    }
                },
            }
        }
    }
}

/// What push does with one local index.
#[derive(PartialEq, Eq, Structural, Debug, Clone, Copy)]
pub enum IndexChange {
    /// The server has no index with this key: create it.
    Create,
    /// The server's index differs: delete it and create it again.
    Recreate,
    /// The server's index already matches.
    Keep,
}

pub open spec fn index_change_spec(idx: IndexSpec, remote: Seq<RemoteIndex>) -> IndexChange {
    match remote_index_for(remote, normalized_identifier(idx.key@)) {
        None => IndexChange::Create,
        Some(existing) => if index_matches(existing, idx) {
            IndexChange::Keep
        } else {
            IndexChange::Recreate
        },
    }
}

/// One planned step for a local index.
pub struct IndexStep {
    pub change: IndexChange,
    pub key: String,
    pub body: JsonValue,
}

/// What push does for the indexes of one collection: one step per local
/// index, in order, and the remote indexes that are missing locally.
pub struct IndexSyncPlan {
    pub steps: Vec<IndexStep>,
    pub stale: Vec<String>,
}

fn list_eq(a: &Vec<String>, b: &Vec<String>) -> (r: bool)
    ensures
        r == (str_views(a@) == str_views(b@)),
{
    if a.len() != b.len() {
        proof {
            assert(str_views(a@).len() != str_views(b@).len());
        }
        return false;
    }
    let mut i: usize = 0;
    while i < a.len()
        invariant
            i <= a.len(),
            a.len() == b.len(),
            forall|k: int| 0 <= k < i ==> a@[k]@ == b@[k]@,
        decreases a.len() - i,
    {
        if !str_eq(a[i].as_str(), b[i].as_str()) {
            proof {
                assert(str_views(a@)[i as int] != str_views(b@)[i as int]);
            }
            return false;
        }
        i = i + 1;
    }
    proof {
        assert(str_views(a@) =~= str_views(b@));
    }
    true
}

fn find_remote_index<'a>(remote: &'a Vec<RemoteIndex>, key: &str) -> (r: Option<&'a RemoteIndex>)
    ensures
        match r {
            Some(x) => remote_index_for(remote@, key@) == Some(*x),
            None => remote_index_for(remote@, key@) is None,
        },
{
    let mut i: usize = remote.len();
    proof {
        assert(remote@.take(remote@.len() as int) == remote@);
    }
    while i > 0
        invariant
            i <= remote.len(),
            remote_index_for(remote@, key@) == remote_index_for(remote@.take(i as int), key@),
        decreases i,
    {
        let k = normalize_identifier(remote[i - 1].key.as_str());
        proof {
            let t = remote@.take(i as int);
            assert(t.last() == remote@[i - 1]);
            assert(t.drop_last() == remote@.take(i - 1));
        }
        if str_eq(k.as_str(), key) {
            return Some(&remote[i - 1]);
        }
        i = i - 1;
    }
    None
}

fn index_payload(idx: &IndexSpec) -> (r: JsonValue)
    ensures
        r.json() == index_payload_spec(*idx),
{
    let orders = normalized_orders(idx);
    let mut fields: Vec<(String, JsonValue)> = Vec::new();
    push_field(&mut fields, "key", JsonValue::Str(normalize_identifier(idx.key.as_str())));
    push_field(&mut fields, "type", json_str(idx.index_type.as_str()));
    push_field(&mut fields, "attributes", json_str_list(&idx.attributes));
    let ol = json_str_list(&orders);
    push_field(&mut fields, "orders", ol);
    proof {
        assert(fields_json(Seq::<(String, JsonValue)>::empty()) =~= Seq::empty());
        assert(Seq::new(orders@.len(), |i: int| Json::Str(orders@[i]@)) =~= Seq::new(
            normalized_orders_spec(*idx).len(),
            |i: int| Json::Str(normalized_orders_spec(*idx)[i]),
        ));
    }
    object(fields)
}

/// Plans the index requests of one collection, given the indexes that the
/// server has.
pub fn plan_index_sync(local: &Vec<IndexSpec>, remote: &Vec<RemoteIndex>) -> (plan: IndexSyncPlan)
    ensures
        plan.steps@.len() == local@.len(),
        forall|i: int|
            0 <= i < local@.len() ==> {
                &&& (#[trigger] plan.steps@[i]).change == index_change_spec(local@[i], remote@)
                &&& plan.steps@[i].key@ == normalized_identifier(local@[i].key@)
                &&& plan.steps@[i].body.json() == index_payload_spec(local@[i])
            },
        is_stale_listing(
            str_views(plan.stale@),
            remote@.map_values(|r: RemoteIndex| normalized_identifier(r.key@)),
            local@.map_values(|x: IndexSpec| normalized_identifier(x.key@)),
        ),
{
    let mut steps: Vec<IndexStep> = Vec::new();
    let mut i: usize = 0;
    while i < local.len()
        invariant
            i <= local.len(),
            steps@.len() == i,
            forall|k: int|
                0 <= k < i ==> {
                    &&& (#[trigger] steps@[k]).change == index_change_spec(local@[k], remote@)
                    &&& steps@[k].key@ == normalized_identifier(local@[k].key@)
                    &&& steps@[k].body.json() == index_payload_spec(local@[k])
                },
        decreases local.len() - i,
    {
        let idx = &local[i];
        let key = normalize_identifier(idx.key.as_str());
        let body = index_payload(idx);
        let change = match find_remote_index(remote, key.as_str()) {
            None => IndexChange::Create,
            Some(existing) => {
                let orders = normalized_orders(idx);
                if str_eq(existing.index_type.as_str(), idx.index_type.as_str()) && list_eq(
                    &existing.attributes,
                    &idx.attributes,
                ) && list_eq(&existing.orders, &orders) {
                    IndexChange::Keep
                } else {
                    IndexChange::Recreate
                }
            },
        };
        steps.push(IndexStep { change, key, body });
        i = i + 1;
    }
    let mut remote_keys: Vec<String> = Vec::new();
    let mut j: usize = 0;
    while j < remote.len()
        invariant
            j <= remote.len(),
            str_views(remote_keys@) == remote@.map_values(
                |r: RemoteIndex| normalized_identifier(r.key@),
            ).take(j as int),
        decreases remote.len() - j,
    {
        let ghost before = remote_keys@;
        remote_keys.push(normalize_identifier(remote[j].key.as_str()));
        proof {
            lemma_views_push_take(
                before,
                remote_keys@,
                remote@.map_values(|r: RemoteIndex| normalized_identifier(r.key@)),
                j as int,
            );
        }
        j = j + 1;
    }
    let mut local_keys: Vec<String> = Vec::new();
    let mut k: usize = 0;
    while k < local.len()
        invariant
            k <= local.len(),
            str_views(local_keys@) == local@.map_values(
                |x: IndexSpec| normalized_identifier(x.key@),
            ).take(k as int),
        decreases local.len() - k,
    {
        let ghost before = local_keys@;
        local_keys.push(normalize_identifier(local[k].key.as_str()));
        proof {
            lemma_views_push_take(
                before,
                local_keys@,
                local@.map_values(|x: IndexSpec| normalized_identifier(x.key@)),
                k as int,
            );
        }
        k = k + 1;
    }
    proof {
        assert(remote@.map_values(|r: RemoteIndex| normalized_identifier(r.key@)).take(
            remote@.len() as int,
        ) == remote@.map_values(|r: RemoteIndex| normalized_identifier(r.key@)));
        assert(local@.map_values(|x: IndexSpec| normalized_identifier(x.key@)).take(
            local@.len() as int,
        ) == local@.map_values(|x: IndexSpec| normalized_identifier(x.key@)));
    }
    let stale = stale_keys(&remote_keys, &local_keys);
    IndexSyncPlan { steps, stale }
}


// ---------------------------------------------------------------------------
// Collections
// ---------------------------------------------------------------------------

/// The remote collection that the id `k` refers to: the last one listed with
/// that normalized id.
pub open spec fn remote_collection_for(remote: Seq<RemoteCollection>, k: Seq<char>) -> Option<
    RemoteCollection,
>
    decreases remote.len(),
{
    if remote.len() == 0 {
        None
    } else if normalized_identifier(remote.last().id@) == k {
        Some(remote.last())
    } else {
        remote_collection_for(remote.drop_last(), k)
    }
}

/// The body that updates a collection.
pub open spec fn collection_update_spec(c: CollectionSpec) -> Json {
    Json::Object(
        Seq::empty().push(("name"@, Json::Str(c.name@))).push(
            ("permissions"@, str_list_json(c.permissions@)),
        ).push(("documentSecurity"@, Json::Bool(c.document_security))).push(
            ("enabled"@, Json::Bool(c.enabled)),
        ),
    )
}

/// The body that creates a collection.
pub open spec fn collection_create_spec(c: CollectionSpec) -> Json {
    Json::Object(
        Seq::empty().push(("collectionId"@, Json::Str(normalized_identifier(c.id@)))).push(
            ("name"@, Json::Str(c.name@)),
        ).push(("permissions"@, str_list_json(c.permissions@))).push(
            ("documentSecurity"@, Json::Bool(c.document_security)),
        ).push(("enabled"@, Json::Bool(c.enabled))),
    )
}

/// What push does with one local collection: update it (PUT) when the server
/// has it, create it (POST) otherwise. `renamed` tells whether the server's
/// name differs from the local one.
pub struct CollectionStep {
    pub create: bool,
    pub id: String,
    pub body: JsonValue,
    pub renamed: bool,
}

fn find_remote_collection<'a>(remote: &'a Vec<RemoteCollection>, key: &str) -> (r: Option<
    &'a RemoteCollection,
>)
    ensures
        match r {
            Some(x) => remote_collection_for(remote@, key@) == Some(*x),
            None => remote_collection_for(remote@, key@) is None,
        },
{
    let mut i: usize = remote.len();
    proof {
        assert(remote@.take(remote@.len() as int) == remote@);
    }
    while i > 0
        invariant
            i <= remote.len(),
            remote_collection_for(remote@, key@) == remote_collection_for(
                remote@.take(i as int),
                key@,
            ),
        decreases i,
    {
        let k = normalize_identifier(remote[i - 1].id.as_str());
        proof {
            let t = remote@.take(i as int);
            assert(t.last() == remote@[i - 1]);
            assert(t.drop_last() == remote@.take(i - 1));
        }
        if str_eq(k.as_str(), key) {
            return Some(&remote[i - 1]);
        }
        i = i - 1;
    }
    None
}

/// Plans the request for one local collection, given the server's collections.
pub fn plan_collection_step(local: &CollectionSpec, remote: &Vec<RemoteCollection>) -> (step:
    CollectionStep)
    ensures
        step.id@ == normalized_identifier(local.id@),
        match remote_collection_for(remote@, normalized_identifier(local.id@)) {
            Some(existing) => !step.create && step.body.json() == collection_update_spec(*local)
                && step.renamed == (existing.name@ != local.name@),
            None => step.create && step.body.json() == collection_create_spec(*local)
                && !step.renamed,
        },
{
    let id = normalize_identifier(local.id.as_str());
    match find_remote_collection(remote, id.as_str()) {
        Some(existing) => {
            let mut fields: Vec<(String, JsonValue)> = Vec::new();
            push_field(&mut fields, "name", json_str(local.name.as_str()));
            push_field(&mut fields, "permissions", json_str_list(&local.permissions));
            push_field(&mut fields, "documentSecurity", JsonValue::Bool(local.document_security));
            push_field(&mut fields, "enabled", JsonValue::Bool(local.enabled));
            proof {
                assert(fields_json(Seq::<(String, JsonValue)>::empty()) =~= Seq::empty());
            }
            let renamed = !str_eq(existing.name.as_str(), local.name.as_str());
            CollectionStep { create: false, id, body: object(fields), renamed }
        },
        None => {
            let mut fields: Vec<(String, JsonValue)> = Vec::new();
            push_field(&mut fields, "collectionId", json_str(id.as_str()));
            push_field(&mut fields, "name", json_str(local.name.as_str()));
            push_field(&mut fields, "permissions", json_str_list(&local.permissions));
            push_field(&mut fields, "documentSecurity", JsonValue::Bool(local.document_security));
            push_field(&mut fields, "enabled", JsonValue::Bool(local.enabled));
            proof {
                assert(fields_json(Seq::<(String, JsonValue)>::empty()) =~= Seq::empty());
            }
            CollectionStep { create: true, id, body: object(fields), renamed: false }
        },
    }
}

/// The server's collections that the local file no longer has, ascending by
/// normalized id and once each.
pub fn stale_collections(local: &Vec<CollectionSpec>, remote: &Vec<RemoteCollection>) -> (out: Vec<
    String,
>)
    ensures
        is_stale_listing(
            str_views(out@),
            remote@.map_values(|r: RemoteCollection| normalized_identifier(r.id@)),
            local@.map_values(|c: CollectionSpec| normalized_identifier(c.id@)),
        ),
{
    let mut remote_ids: Vec<String> = Vec::new();
    let mut j: usize = 0;
    while j < remote.len()
        invariant
            j <= remote.len(),
            str_views(remote_ids@) == remote@.map_values(
                |r: RemoteCollection| normalized_identifier(r.id@),
            ).take(j as int),
        decreases remote.len() - j,
    {
        let ghost before = remote_ids@;
        remote_ids.push(normalize_identifier(remote[j].id.as_str()));
        proof {
            lemma_views_push_take(
                before,
                remote_ids@,
                remote@.map_values(|r: RemoteCollection| normalized_identifier(r.id@)),
                j as int,
            );
        }
        j = j + 1;
    }
    let mut local_ids: Vec<String> = Vec::new();
    let mut k: usize = 0;
    while k < local.len()
        invariant
            k <= local.len(),
            str_views(local_ids@) == local@.map_values(
                |c: CollectionSpec| normalized_identifier(c.id@),
            ).take(k as int),
        decreases local.len() - k,
    {
        let ghost before = local_ids@;
        local_ids.push(normalize_identifier(local[k].id.as_str()));
        proof {
            lemma_views_push_take(
                before,
                local_ids@,
                local@.map_values(|c: CollectionSpec| normalized_identifier(c.id@)),
                k as int,
            );
        }
        k = k + 1;
    }
    proof {
        assert(remote@.map_values(|r: RemoteCollection| normalized_identifier(r.id@)).take(
            remote@.len() as int,
        ) == remote@.map_values(|r: RemoteCollection| normalized_identifier(r.id@)));
        assert(local@.map_values(|c: CollectionSpec| normalized_identifier(c.id@)).take(
            local@.len() as int,
        ) == local@.map_values(|c: CollectionSpec| normalized_identifier(c.id@)));
    }
    stale_keys(&remote_ids, &local_ids)
}


/// Law: push offers to delete exactly the server's collections that no
/// local collection stands for: none that it has just created or updated,
/// and every other one.
pub proof fn law_stale_collections_partition(
    stale: Seq<Seq<char>>,
    local: Seq<CollectionSpec>,
    remote: Seq<RemoteCollection>,
)
    requires
        is_stale_listing(
            stale,
            remote.map_values(|r: RemoteCollection| normalized_identifier(r.id@)),
            local.map_values(|c: CollectionSpec| normalized_identifier(c.id@)),
        ),
    ensures
        forall|i: int|
            0 <= i < local.len() ==> !stale.contains(normalized_identifier(#[trigger] local[i].id@)),
        forall|j: int|
            0 <= j < remote.len() ==> stale.contains(normalized_identifier(#[trigger] remote[j].id@))
                || exists|i: int|
                0 <= i < local.len() && normalized_identifier(local[i].id@) == normalized_identifier(
                    remote[j].id@,
                ),
{
    let rids = remote.map_values(|r: RemoteCollection| normalized_identifier(r.id@));
    let lids = local.map_values(|c: CollectionSpec| normalized_identifier(c.id@));
    assert forall|i: int| 0 <= i < local.len() implies !stale.contains(
        normalized_identifier(#[trigger] local[i].id@),
    ) by {
        assert(lids[i] == normalized_identifier(local[i].id@));
        assert(lids.contains(normalized_identifier(local[i].id@)));
    }
    assert forall|j: int| 0 <= j < remote.len() implies stale.contains(
        normalized_identifier(#[trigger] remote[j].id@),
    ) || exists|i: int|
        0 <= i < local.len() && normalized_identifier(local[i].id@) == normalized_identifier(
            remote[j].id@,
        ) by {
        let k = normalized_identifier(remote[j].id@);
        assert(rids[j] == k);
        assert(rids.contains(k));
        if lids.contains(k) {
            let i = choose|i: int| 0 <= i < lids.len() && lids[i] == k;
            assert(normalized_identifier(local[i].id@) == k);
        }
    }
}

/// Law: what push does with a local index is decided by the last index that
/// the server lists under the same normalized key. With none, the index is
/// created. It is kept exactly when that index has the same type, covers the
/// same attributes in the same order, and has the orders the local index is
/// sent with (its own, or `ASC` for every attribute); otherwise it is deleted
/// and created again.
pub proof fn law_index_change(idx: IndexSpec, remote: Seq<RemoteIndex>)
    ensures
        ({
            let k = normalized_identifier(idx.key@);
            let c = index_change_spec(idx, remote);
            let sent_orders = if idx.orders@.len() == 0 {
                Seq::new(idx.attributes@.len(), |i: int| "ASC"@)
            } else {
                str_views(idx.orders@)
            };
            &&& (c == IndexChange::Create <==> forall|j: int|
                0 <= j < remote.len() ==> normalized_identifier(#[trigger] remote[j].key@) != k)
            &&& (c != IndexChange::Create ==> exists|j: int|
                {
                    &&& 0 <= j < remote.len()
                    &&& normalized_identifier(remote[j].key@) == k
                    &&& (forall|l: int|
                        j < l < remote.len() ==> normalized_identifier(#[trigger] remote[l].key@)
                            != k)
                    &&& (c == IndexChange::Keep <==> {
                        &&& remote[j].index_type@ == idx.index_type@
                        &&& str_views(remote[j].attributes@) == str_views(idx.attributes@)
                        &&& str_views(remote[j].orders@) == sent_orders
                    })
                })
        }),
{
    let k = normalized_identifier(idx.key@);
    lemma_remote_index_for(remote, k);
    match remote_index_for(remote, k) {
        None => {},
        Some(x) => {
            let j = choose|j: int|
                {
                    &&& 0 <= j < remote.len()
                    &&& x == remote[j]
                    &&& normalized_identifier(remote[j].key@) == k
                    &&& forall|l: int|
                        j < l < remote.len() ==> normalized_identifier(#[trigger] remote[l].key@)
                            != k
                };
            assert(normalized_identifier(remote[j].key@) == k);
        },
    }
}

/// Law: the body that updates a collection carries its name, permissions,
/// document security and whether it is enabled; the body that creates one
/// carries its normalized id as well.
pub proof fn law_collection_bodies(c: CollectionSpec)
    ensures
        collection_update_spec(c) matches Json::Object(fs) && {
            &&& carries(fs, "name"@, Json::Str(c.name@))
            &&& carries(fs, "permissions"@, str_list_json(c.permissions@))
            &&& carries(fs, "documentSecurity"@, Json::Bool(c.document_security))
            &&& carries(fs, "enabled"@, Json::Bool(c.enabled))
        },
        collection_create_spec(c) matches Json::Object(fs) && {
            &&& carries(fs, "collectionId"@, Json::Str(normalized_identifier(c.id@)))
            &&& carries(fs, "name"@, Json::Str(c.name@))
            &&& carries(fs, "permissions"@, str_list_json(c.permissions@))
            &&& carries(fs, "documentSecurity"@, Json::Bool(c.document_security))
            &&& carries(fs, "enabled"@, Json::Bool(c.enabled))
        },
{
    reveal_strlit("name");
    reveal_strlit("permissions");
    reveal_strlit("documentSecurity");
    reveal_strlit("enabled");
    reveal_strlit("collectionId");
    reveal_strlit("key");
    reveal_strlit("type");
    reveal_strlit("attributes");
    reveal_strlit("orders");
    let u = Seq::<(Seq<char>, Json)>::empty().push(("name"@, Json::Str(c.name@))).push(
        ("permissions"@, str_list_json(c.permissions@)),
    ).push(("documentSecurity"@, Json::Bool(c.document_security))).push(
        ("enabled"@, Json::Bool(c.enabled)),
    );
    assert(collection_update_spec(c) == Json::Object(u));
    lemma_carries_all(u);
    assert(u[0].0 == "name"@ && u[1].0 == "permissions"@ && u[2].0 == "documentSecurity"@
        && u[3].0 == "enabled"@);
    let f = Seq::<(Seq<char>, Json)>::empty().push(
        ("collectionId"@, Json::Str(normalized_identifier(c.id@))),
    ).push(("name"@, Json::Str(c.name@))).push(("permissions"@, str_list_json(c.permissions@))).push(
        ("documentSecurity"@, Json::Bool(c.document_security)),
    ).push(("enabled"@, Json::Bool(c.enabled)));
    assert(collection_create_spec(c) == Json::Object(f));
    lemma_carries_all(f);
    assert(f[0].0 == "collectionId"@ && f[1].0 == "name"@ && f[2].0 == "permissions"@ && f[3].0
        == "documentSecurity"@ && f[4].0 == "enabled"@);
}

/// Law: push creates a local collection exactly when the server lists no
/// collection with the same normalized id; otherwise it updates the last one
/// listed with that id.
pub proof fn law_collection_created_when_missing(c: CollectionSpec, remote: Seq<RemoteCollection>)
    ensures
        remote_collection_for(remote, normalized_identifier(c.id@)) is None <==> forall|j: int|
            0 <= j < remote.len() ==> normalized_identifier(#[trigger] remote[j].id@)
                != normalized_identifier(c.id@),
        remote_collection_for(remote, normalized_identifier(c.id@)) matches Some(x) ==> exists|
            j: int,
        |
            {
                &&& 0 <= j < remote.len()
                &&& x == remote[j]
                &&& normalized_identifier(remote[j].id@) == normalized_identifier(c.id@)
                &&& forall|l: int|
                    j < l < remote.len() ==> normalized_identifier(#[trigger] remote[l].id@)
                        != normalized_identifier(c.id@)
            },
{
    lemma_remote_collection_for(remote, normalized_identifier(c.id@));
}

proof fn lemma_remote_collection_for(remote: Seq<RemoteCollection>, k: Seq<char>)
    ensures
        match remote_collection_for(remote, k) {
            None => forall|j: int|
                0 <= j < remote.len() ==> normalized_identifier(#[trigger] remote[j].id@) != k,
            Some(x) => exists|j: int|
                {
                    &&& 0 <= j < remote.len()
                    &&& x == remote[j]
                    &&& normalized_identifier(remote[j].id@) == k
                    &&& forall|l: int|
                        j < l < remote.len() ==> normalized_identifier(#[trigger] remote[l].id@)
                            != k
                },
        },
    decreases remote.len(),
{
    if remote.len() > 0 {
        let d = remote.drop_last();
        lemma_remote_collection_for(d, k);
        if normalized_identifier(remote.last().id@) == k {
            assert(remote.last() == remote[remote.len() - 1]);
        } else {
            match remote_collection_for(d, k) {
                None => {
                    assert forall|j: int| 0 <= j < remote.len() implies normalized_identifier(
                        #[trigger] remote[j].id@,
                    ) != k by {
                        if j < d.len() {
                            assert(d[j] == remote[j]);
                        }
                    }
                },
                Some(x) => {
                    let j = choose|j: int|
                        {
                            &&& 0 <= j < d.len()
                            &&& x == d[j]
                            &&& normalized_identifier(d[j].id@) == k
                            &&& forall|l: int|
                                j < l < d.len() ==> normalized_identifier(#[trigger] d[l].id@)
                                    != k
                        };
                    assert(d[j] == remote[j]);
                    assert forall|l: int| j < l < remote.len() implies normalized_identifier(
                        #[trigger] remote[l].id@,
                    ) != k by {
                        if l < d.len() {
                            assert(d[l] == remote[l]);
                        }
                    }
                },
            }
        }
    }
}

/// Law: the body that creates an index carries its normalized key, its type,
/// its attributes, and its orders: its own, or `ASC` for every attribute
/// when it has none.
pub proof fn law_index_payload(idx: IndexSpec)
    ensures
        index_payload_spec(idx) matches Json::Object(fs) && {
            &&& carries(fs, "key"@, Json::Str(normalized_identifier(idx.key@)))
            &&& carries(fs, "type"@, Json::Str(idx.index_type@))
            &&& carries(fs, "attributes"@, str_list_json(idx.attributes@))
            &&& carries(
                fs,
                "orders"@,
                Json::Array(
                    if idx.orders@.len() == 0 {
                        Seq::new(idx.attributes@.len(), |i: int| Json::Str("ASC"@))
                    } else {
                        Seq::new(idx.orders@.len(), |i: int| Json::Str(idx.orders@[i]@))
                    },
                ),
            )
        },
{
    reveal_strlit("name");
    reveal_strlit("permissions");
    reveal_strlit("documentSecurity");
    reveal_strlit("enabled");
    reveal_strlit("collectionId");
    reveal_strlit("key");
    reveal_strlit("type");
    reveal_strlit("attributes");
    reveal_strlit("orders");
    let o = normalized_orders_spec(idx);
    let f = Seq::<(Seq<char>, Json)>::empty().push(
        ("key"@, Json::Str(normalized_identifier(idx.key@))),
    ).push(("type"@, Json::Str(idx.index_type@))).push(
        ("attributes"@, str_list_json(idx.attributes@)),
    ).push(("orders"@, Json::Array(Seq::new(o.len(), |i: int| Json::Str(o[i])))));
    assert(index_payload_spec(idx) == Json::Object(f));
    lemma_carries_all(f);
    assert(f[0].0 == "key"@ && f[1].0 == "type"@ && f[2].0 == "attributes"@ && f[3].0
        == "orders"@);
    let want = if idx.orders@.len() == 0 {
        Seq::new(idx.attributes@.len(), |i: int| Json::Str("ASC"@))
    } else {
        Seq::new(idx.orders@.len(), |i: int| Json::Str(idx.orders@[i]@))
    };
    assert(Seq::new(o.len(), |i: int| Json::Str(o[i])) =~= want);
}

/// Law: the request for a local attribute is an update exactly when the
/// server has an attribute with the same normalized key, and a creation
/// otherwise; it is sent under the attribute's type, with the update body or
/// the create body accordingly. It is refused when either body cannot be
/// built.
pub proof fn law_attribute_action(a: AttributeSpec, remote: Seq<Seq<char>>)
    ensures
        attribute_action_spec(a, remote) matches Ok((update, key, typed, body)) ==> {
            &&& update == remote.contains(normalized_identifier(a.key@))
            &&& key == normalized_identifier(a.key@)
            &&& typed == a.attr_type@
            &&& update ==> update_attribute_payload_spec(a) == Ok::<Json, PayloadIssue>(body)
            &&& !update ==> create_attribute_payload_spec(a) == Ok::<(Seq<char>, Json), PayloadIssue>(
                (typed, body),
            )
        },
        attribute_action_spec(a, remote) is Err ==> create_attribute_payload_spec(a) is Err || (
        remote.contains(normalized_identifier(a.key@)) && update_attribute_payload_spec(a) is Err),
{
    crate::payload::law_create_payload_fields(a);
}

} // verus!
