//! The logical records of the history store, and the spec-level queries that
//! the repository and engine contracts are stated over.

use vstd::prelude::*;

verus! {

/// The kind of subject under observation: a platform account or a community.
#[derive(Clone, Copy, PartialEq, Eq, Structural, Debug)]
pub enum EntityKind {
    Account,
    Community,
}

/// A subject enrolled for periodic observation. `tracked_since` is set once,
/// at enrollment, and never changes.
#[derive(Debug)]
pub struct TrackedEntity {
    pub entity_id: i64,
    pub kind: EntityKind,
    pub tracked_since: i64,
}

impl Clone for TrackedEntity {
    fn clone(&self) -> (r: Self)
        ensures
            r == *self,
    {
        TrackedEntity { entity_id: self.entity_id, kind: self.kind, tracked_since: self.tracked_since }
    }
}

/// One archived observation of a tracked entity's image: the content
/// fingerprint of the observed bytes, the durable retrieval link, and the
/// moment of observation.
#[derive(Debug)]
pub struct ImageHistoryEntry {
    pub entity_id: i64,
    pub fingerprint: String,
    pub archive_link: String,
    pub observed_at: i64,
}

impl Clone for ImageHistoryEntry {
    fn clone(&self) -> (r: Self)
        ensures
            r == *self,
    {
        ImageHistoryEntry {
            entity_id: self.entity_id,
            fingerprint: self.fingerprint.clone(),
            archive_link: self.archive_link.clone(),
            observed_at: self.observed_at,
        }
    }
}

/// One observation of an account's display name.
#[derive(Debug)]
pub struct NameHistoryEntry {
    pub account_id: i64,
    pub name: String,
    pub observed_at: i64,
}

impl Clone for NameHistoryEntry {
    fn clone(&self) -> (r: Self)
        ensures
            r == *self,
    {
        NameHistoryEntry {
            account_id: self.account_id,
            name: self.name.clone(),
            observed_at: self.observed_at,
        }
    }
}

/// Whether some entity row carries `id`.
pub open spec fn is_tracked_in(s: Seq<TrackedEntity>, id: i64) -> bool {
    exists|i: int| 0 <= i < s.len() && s[i].entity_id == id
}

/// Ownership of an image row by `id`, as a filter predicate.
pub open spec fn owned_image(id: i64) -> spec_fn(ImageHistoryEntry) -> bool {
    |e: ImageHistoryEntry| e.entity_id == id
}

/// Ownership of a name row by `account`, as a filter predicate.
pub open spec fn owned_name(account: i64) -> spec_fn(NameHistoryEntry) -> bool {
    |e: NameHistoryEntry| e.account_id == account
}

/// The image rows owned by `id`, in insertion order.
pub open spec fn image_entries_for(s: Seq<ImageHistoryEntry>, id: i64) -> Seq<ImageHistoryEntry> {
    s.filter(owned_image(id))
}

/// The name rows owned by `account`, in insertion order.
pub open spec fn name_entries_for(s: Seq<NameHistoryEntry>, account: i64) -> Seq<NameHistoryEntry> {
    s.filter(owned_name(account))
}

/// Whether any image row for `id` carries the fingerprint `f`.
pub open spec fn has_image_fingerprint(s: Seq<ImageHistoryEntry>, id: i64, f: Seq<char>) -> bool {
    exists|i: int| 0 <= i < s.len() && s[i].entity_id == id && s[i].fingerprint@ == f
}

/// Whether some image row for `id` was observed exactly at `t`.
pub open spec fn has_observation_at(s: Seq<ImageHistoryEntry>, id: i64, t: i64) -> bool {
    exists|i: int| 0 <= i < s.len() && s[i].entity_id == id && s[i].observed_at == t
}

/// Whether any name row for `account` carries exactly the name `n`.
pub open spec fn has_name(s: Seq<NameHistoryEntry>, account: i64, n: Seq<char>) -> bool {
    exists|i: int| 0 <= i < s.len() && s[i].account_id == account && s[i].name@ == n
}

/// Whether `id` has no image history at all.
pub open spec fn no_image_history_for(s: Seq<ImageHistoryEntry>, id: i64) -> bool {
    forall|i: int| 0 <= i < s.len() ==> s[i].entity_id != id
}

/// Whether `account` has no name history at all.
pub open spec fn no_name_history_for(s: Seq<NameHistoryEntry>, account: i64) -> bool {
    forall|i: int| 0 <= i < s.len() ==> s[i].account_id != account
}

/// The image row for `id` with the greatest `observed_at`: the current state
/// of the entity. Ties are broken towards the later row, but under the
/// repository invariant no two rows of one entity share an `observed_at`.
pub open spec fn latest_of(s: Seq<ImageHistoryEntry>, id: i64) -> Option<ImageHistoryEntry>
    decreases s.len(),
{
    if s.len() == 0 {
        None
    } else {
        let prev = latest_of(s.drop_last(), id);
        let last = s.last();
        if last.entity_id != id {
            prev
        } else {
            match prev {
                Option::None => Some(last),
                Option::Some(p) => if last.observed_at >= p.observed_at { Some(last) } else { Some(p) },
            }
        }
    }
}

/// The image row for `id` carrying fingerprint `f` with the greatest
/// `observed_at`: the most recent prior appearance of exactly this content.
pub open spec fn latest_match_of(s: Seq<ImageHistoryEntry>, id: i64, f: Seq<char>) -> Option<ImageHistoryEntry>
    decreases s.len(),
{
    if s.len() == 0 {
        None
    } else {
        let prev = latest_match_of(s.drop_last(), id, f);
        let last = s.last();
        if last.entity_id != id || last.fingerprint@ != f {
            prev
        } else {
            match prev {
                Option::None => Some(last),
                Option::Some(p) => if last.observed_at >= p.observed_at { Some(last) } else { Some(p) },
            }
        }
    }
}

/// No two entity rows share an id.
pub open spec fn unique_entity_ids(s: Seq<TrackedEntity>) -> bool {
    forall|i: int, j: int| 0 <= i < j < s.len() ==> s[i].entity_id != s[j].entity_id
}

/// No entity has two image rows at the same instant.
pub open spec fn unique_image_observations(s: Seq<ImageHistoryEntry>) -> bool {
    forall|i: int, j: int|
        0 <= i < j < s.len() && s[i].entity_id == s[j].entity_id ==> s[i].observed_at != s[j].observed_at
}

/// No account has two name rows carrying the same name.
pub open spec fn unique_account_names(s: Seq<NameHistoryEntry>) -> bool {
    forall|i: int, j: int|
        0 <= i < j < s.len() && s[i].account_id == s[j].account_id ==> s[i].name@ != s[j].name@
}

/// Appending one element moves `filter` by exactly that element.
pub proof fn lemma_filter_push<A>(s: Seq<A>, pred: spec_fn(A) -> bool, e: A)
    ensures
        s.push(e).filter(pred) == if pred(e) { s.filter(pred).push(e) } else { s.filter(pred) },
{
    reveal(Seq::filter);
    assert(s.push(e).drop_last() =~= s);
    assert(s.push(e).last() == e);
}

/// `latest_of` returns a row of the sequence, owned by the entity asked for.
pub proof fn lemma_latest_of_membership(s: Seq<ImageHistoryEntry>, id: i64)
    ensures
        latest_of(s, id) matches Some(e) ==> exists|i: int| 0 <= i < s.len() && s[i] == e && e.entity_id == id,
        latest_of(s, id) is None ==> no_image_history_for(s, id),
    decreases s.len(),
{
    if s.len() > 0 {
        lemma_latest_of_membership(s.drop_last(), id);
        assert forall|i: int| 0 <= i < s.len() - 1 implies s.drop_last()[i] == s[i] by {}
    }
}

/// Appending a row of another entity leaves `latest_of` as it was; appending a
/// row of this entity observed later than every prior row makes it the latest.
pub proof fn lemma_latest_of_push(s: Seq<ImageHistoryEntry>, id: i64, e: ImageHistoryEntry)
    ensures
        e.entity_id != id ==> latest_of(s.push(e), id) == latest_of(s, id),
        e.entity_id == id && (forall|i: int|
            0 <= i < s.len() && s[i].entity_id == id ==> s[i].observed_at < e.observed_at)
            ==> latest_of(s.push(e), id) == Some(e),
{
    assert(s.push(e).drop_last() =~= s);
    assert(s.push(e).last() == e);
    lemma_latest_of_membership(s, id);
}

/// The counterpart of `lemma_latest_of_membership` for `latest_match_of`.
pub proof fn lemma_latest_match_of_membership(s: Seq<ImageHistoryEntry>, id: i64, f: Seq<char>)
    ensures
        latest_match_of(s, id, f) matches Some(e) ==> exists|i: int|
            0 <= i < s.len() && s[i] == e && e.entity_id == id && e.fingerprint@ == f,
        (latest_match_of(s, id, f) is Some) <==> has_image_fingerprint(s, id, f),
    decreases s.len(),
{
    if s.len() > 0 {
        lemma_latest_match_of_membership(s.drop_last(), id, f);
        assert forall|i: int| 0 <= i < s.len() - 1 implies s.drop_last()[i] == s[i] by {}
        if has_image_fingerprint(s, id, f) {
            let w = choose|i: int| 0 <= i < s.len() && s[i].entity_id == id && s[i].fingerprint@ == f;
            if w < s.len() - 1 {
                assert(has_image_fingerprint(s.drop_last(), id, f));
            }
        }
    }
}

/// How the existence queries move when one row is appended.
pub proof fn lemma_queries_push(s: Seq<ImageHistoryEntry>, id: i64, f: Seq<char>, t: i64, e: ImageHistoryEntry)
    ensures
        has_image_fingerprint(s.push(e), id, f) <==> (has_image_fingerprint(s, id, f)
            || (e.entity_id == id && e.fingerprint@ == f)),
        has_observation_at(s.push(e), id, t) <==> (has_observation_at(s, id, t)
            || (e.entity_id == id && e.observed_at == t)),
{
    let p = s.push(e);
    assert(p[s.len() as int] == e);
    assert forall|i: int| 0 <= i < s.len() implies p[i] == s[i] by {}
    if has_image_fingerprint(p, id, f) {
        let w = choose|i: int| 0 <= i < p.len() && p[i].entity_id == id && p[i].fingerprint@ == f;
        if w < s.len() {
            assert(has_image_fingerprint(s, id, f));
        }
    }
    if has_observation_at(p, id, t) {
        let w = choose|i: int| 0 <= i < p.len() && p[i].entity_id == id && p[i].observed_at == t;
        if w < s.len() {
            assert(has_observation_at(s, id, t));
        }
    }
}

/// How the name-existence query moves when one row is appended.
pub proof fn lemma_name_query_push(s: Seq<NameHistoryEntry>, account: i64, n: Seq<char>, e: NameHistoryEntry)
    ensures
        has_name(s.push(e), account, n) <==> (has_name(s, account, n)
            || (e.account_id == account && e.name@ == n)),
{
    let p = s.push(e);
    assert(p[s.len() as int] == e);
    assert forall|i: int| 0 <= i < s.len() implies p[i] == s[i] by {}
    if has_name(p, account, n) {
        let w = choose|i: int| 0 <= i < p.len() && p[i].account_id == account && p[i].name@ == n;
        if w < s.len() {
            assert(has_name(s, account, n));
        }
    }
}

/// How `latest_of` moves when one row is appended.
pub proof fn lemma_latest_of_step(s: Seq<ImageHistoryEntry>, id: i64, e: ImageHistoryEntry)
    ensures
        latest_of(s.push(e), id) == ({
            let prev = latest_of(s, id);
            if e.entity_id != id {
                prev
            } else {
                match prev {
                    Option::None => Some(e),
                    Option::Some(p) => if e.observed_at >= p.observed_at { Some(e) } else { Some(p) },
                }
            }
        }),
{
    assert(s.push(e).drop_last() =~= s);
    assert(s.push(e).last() == e);
}

/// How `latest_match_of` moves when one row is appended.
pub proof fn lemma_latest_match_of_step(s: Seq<ImageHistoryEntry>, id: i64, f: Seq<char>, e: ImageHistoryEntry)
    ensures
        latest_match_of(s.push(e), id, f) == ({
            let prev = latest_match_of(s, id, f);
            if e.entity_id != id || e.fingerprint@ != f {
                prev
            } else {
                match prev {
                    Option::None => Some(e),
                    Option::Some(p) => if e.observed_at >= p.observed_at { Some(e) } else { Some(p) },
                }
            }
        }),
{
    assert(s.push(e).drop_last() =~= s);
    assert(s.push(e).last() == e);
}

/// Every element of a filtered sequence is an element of the original.
pub proof fn lemma_filter_subset<A>(s: Seq<A>, pred: spec_fn(A) -> bool)
    ensures
        forall|k: int| 0 <= k < s.filter(pred).len() ==> s.contains(#[trigger] s.filter(pred)[k]),
    decreases s.len(),
{
    reveal(Seq::filter);
    if s.len() > 0 {
        let dl = s.drop_last();
        lemma_filter_subset(dl, pred);
        assert forall|k: int| 0 <= k < s.filter(pred).len() implies s.contains(
            #[trigger] s.filter(pred)[k],
        ) by {
            if pred(s.last()) {
                assert(s.filter(pred) == dl.filter(pred).push(s.last()));
            } else {
                assert(s.filter(pred) == dl.filter(pred));
            }
            if k < dl.filter(pred).len() {
                assert(dl.contains(dl.filter(pred)[k]));
                let q = choose|q: int| 0 <= q < dl.len() && dl[q] == dl.filter(pred)[k];
                assert(s[q] == dl.filter(pred)[k]);
            } else {
                assert(s[s.len() - 1] == s.last());
            }
        }
    }
}

/// An entity with no image history owns no rows at all.
pub proof fn lemma_image_entries_empty(s: Seq<ImageHistoryEntry>, id: i64)
    requires
        no_image_history_for(s, id),
    ensures
        image_entries_for(s, id) == Seq::<ImageHistoryEntry>::empty(),
{
    lemma_filter_subset(s, owned_image(id));
    if image_entries_for(s, id).len() > 0 {
        s.lemma_filter_pred(owned_image(id), 0);
        assert(s.contains(image_entries_for(s, id)[0]));
        let q = choose|q: int| 0 <= q < s.len() && s[q] == image_entries_for(s, id)[0];
        assert(false);
    }
    assert(image_entries_for(s, id) =~= Seq::<ImageHistoryEntry>::empty());
}

/// An account with no name history owns no rows at all.
pub proof fn lemma_name_entries_empty(s: Seq<NameHistoryEntry>, account: i64)
    requires
        no_name_history_for(s, account),
    ensures
        name_entries_for(s, account) == Seq::<NameHistoryEntry>::empty(),
{
    lemma_filter_subset(s, owned_name(account));
    if name_entries_for(s, account).len() > 0 {
        s.lemma_filter_pred(owned_name(account), 0);
        assert(s.contains(name_entries_for(s, account)[0]));
        let q = choose|q: int| 0 <= q < s.len() && s[q] == name_entries_for(s, account)[0];
        assert(false);
    }
    assert(name_entries_for(s, account) =~= Seq::<NameHistoryEntry>::empty());
}

/// Filtering keeps entity ids unique.
pub proof fn lemma_filter_unique_entities(s: Seq<TrackedEntity>, pred: spec_fn(TrackedEntity) -> bool)
    requires
        unique_entity_ids(s),
    ensures
        unique_entity_ids(s.filter(pred)),
    decreases s.len(),
{
    reveal(Seq::filter);
    if s.len() > 0 {
        let dl = s.drop_last();
        assert forall|i: int, j: int| 0 <= i < j < dl.len() implies dl[i].entity_id != dl[j].entity_id by {
            assert(dl[i] == s[i] && dl[j] == s[j]);
        }
        lemma_filter_unique_entities(dl, pred);
        lemma_filter_subset(dl, pred);
        let fdl = dl.filter(pred);
        let fs = s.filter(pred);
        assert forall|i: int, j: int| 0 <= i < j < fs.len() implies fs[i].entity_id != fs[j].entity_id by {
            if pred(s.last()) {
                assert(fs == fdl.push(s.last()));
                if j == fdl.len() {
                    assert(dl.contains(fdl[i]));
                    let q = choose|q: int| 0 <= q < dl.len() && dl[q] == fdl[i];
                    assert(s[q] == fdl[i]);
                    assert(s[q].entity_id != s[s.len() - 1].entity_id);
                }
            } else {
                assert(fs == fdl);
            }
        }
    }
}

/// Filtering keeps per-entity observation instants unique.
pub proof fn lemma_filter_unique_observations(s: Seq<ImageHistoryEntry>, pred: spec_fn(ImageHistoryEntry) -> bool)
    requires
        unique_image_observations(s),
    ensures
        unique_image_observations(s.filter(pred)),
    decreases s.len(),
{
    reveal(Seq::filter);
    if s.len() > 0 {
        let dl = s.drop_last();
        assert forall|i: int, j: int|
            0 <= i < j < dl.len() && dl[i].entity_id == dl[j].entity_id implies dl[i].observed_at
            != dl[j].observed_at by {
            assert(dl[i] == s[i] && dl[j] == s[j]);
        }
        lemma_filter_unique_observations(dl, pred);
        lemma_filter_subset(dl, pred);
        let fdl = dl.filter(pred);
        let fs = s.filter(pred);
        assert forall|i: int, j: int|
            0 <= i < j < fs.len() && fs[i].entity_id == fs[j].entity_id implies fs[i].observed_at
            != fs[j].observed_at by {
            if pred(s.last()) {
                assert(fs == fdl.push(s.last()));
                if j == fdl.len() {
                    assert(dl.contains(fdl[i]));
                    let q = choose|q: int| 0 <= q < dl.len() && dl[q] == fdl[i];
                    assert(s[q] == fdl[i]);
                }
            } else {
                assert(fs == fdl);
            }
        }
    }
}

/// Filtering keeps per-account names unique.
pub proof fn lemma_filter_unique_names(s: Seq<NameHistoryEntry>, pred: spec_fn(NameHistoryEntry) -> bool)
    requires
        unique_account_names(s),
    ensures
        unique_account_names(s.filter(pred)),
    decreases s.len(),
{
    reveal(Seq::filter);
    if s.len() > 0 {
        let dl = s.drop_last();
        assert forall|i: int, j: int|
            0 <= i < j < dl.len() && dl[i].account_id == dl[j].account_id implies dl[i].name@
            != dl[j].name@ by {
            assert(dl[i] == s[i] && dl[j] == s[j]);
        }
        lemma_filter_unique_names(dl, pred);
        lemma_filter_subset(dl, pred);
        let fdl = dl.filter(pred);
        let fs = s.filter(pred);
        assert forall|i: int, j: int|
            0 <= i < j < fs.len() && fs[i].account_id == fs[j].account_id implies fs[i].name@
            != fs[j].name@ by {
            if pred(s.last()) {
                assert(fs == fdl.push(s.last()));
                if j == fdl.len() {
                    assert(dl.contains(fdl[i]));
                    let q = choose|q: int| 0 <= q < dl.len() && dl[q] == fdl[i];
                    assert(s[q] == fdl[i]);
                }
            } else {
                assert(fs == fdl);
            }
        }
    }
}

} // verus!
