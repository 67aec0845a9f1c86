//! The history repository: the persisted, append-only image and name history
//! tables together with the set of tracked entities, held as logical records.
//!
//! Invariants (see `HistoryRepo::wf`): entity ids are unique; no entity has two
//! image rows at one instant; no account has two name rows with one name; and
//! every history row is owned by a tracked entity (no orphaned history).

use vstd::prelude::*;

use crate::model::EntityKind;
use crate::model::ImageHistoryEntry;
use crate::model::NameHistoryEntry;
use crate::model::TrackedEntity;
use crate::model::has_image_fingerprint;
use crate::model::has_name;
use crate::model::has_observation_at;
use crate::model::image_entries_for;
use crate::model::is_tracked_in;
use crate::model::latest_match_of;
use crate::model::latest_of;
use crate::model::lemma_filter_push;
use crate::model::lemma_filter_subset;
use crate::model::lemma_filter_unique_entities;
use crate::model::lemma_filter_unique_names;
use crate::model::lemma_filter_unique_observations;
use crate::model::lemma_latest_match_of_step;
use crate::model::lemma_latest_of_step;
use crate::model::owned_image;
use crate::model::owned_name;
use crate::model::lemma_latest_match_of_membership;
use crate::model::name_entries_for;
use crate::model::no_image_history_for;
use crate::model::no_name_history_for;
use crate::model::unique_account_names;
use crate::model::unique_entity_ids;
use crate::model::unique_image_observations;

verus! {

/// Why a repository write was refused.
#[derive(Clone, Copy, PartialEq, Eq, Structural, Debug)]
pub enum RepoError {
    /// The entity the row would belong to is not enrolled.
    NotTracked,
    /// The write would break a uniqueness invariant of the table.
    ConstraintViolation,
}

/// What enrolling an entity found.
#[derive(Clone, Copy, PartialEq, Eq, Structural, Debug)]
pub enum EnrollOutcome {
    Enrolled,
    /// The entity was already enrolled; carries its `tracked_since`.
    AlreadyTracked(i64),
}

/// The predicate that `delete_entity` keeps entity rows by.
pub open spec fn not_entity(id: i64) -> spec_fn(TrackedEntity) -> bool {
    |e: TrackedEntity| e.entity_id != id
}

/// The predicate that `delete_entity` keeps image rows by.
pub open spec fn not_owned_image(id: i64) -> spec_fn(ImageHistoryEntry) -> bool {
    |e: ImageHistoryEntry| e.entity_id != id
}

/// The predicate that `delete_entity` keeps name rows by.
pub open spec fn not_owned_name(id: i64) -> spec_fn(NameHistoryEntry) -> bool {
    |e: NameHistoryEntry| e.account_id != id
}

/// The append-only history store. Image and name rows are only ever appended,
/// or cascade-deleted with their owning entity.
pub struct HistoryRepo {
    entities: Vec<TrackedEntity>,
    images: Vec<ImageHistoryEntry>,
    names: Vec<NameHistoryEntry>,
}

impl HistoryRepo {
    /// The enrolled entities, in enrollment order.
    pub closed spec fn entities(&self) -> Seq<TrackedEntity> {
        self.entities@
    }

    /// The image history table, in insertion order.
    pub closed spec fn images(&self) -> Seq<ImageHistoryEntry> {
        self.images@
    }

    /// The name history table, in insertion order.
    pub closed spec fn names(&self) -> Seq<NameHistoryEntry> {
        self.names@
    }

    /// The repository invariant: uniqueness of entity ids, of per-entity
    /// observation instants, and of per-account names; and no orphaned rows.
    pub open spec fn wf(&self) -> bool {
        &&& unique_entity_ids(self.entities())
        &&& unique_image_observations(self.images())
        &&& unique_account_names(self.names())
        &&& forall|i: int|
            0 <= i < self.images().len() ==> is_tracked_in(
                self.entities(),
                #[trigger] self.images()[i].entity_id,
            )
        &&& forall|i: int|
            0 <= i < self.names().len() ==> is_tracked_in(
                self.entities(),
                #[trigger] self.names()[i].account_id,
            )
    }

    /// An empty store: nothing tracked, no history.
    pub fn new() -> (r: HistoryRepo)
        ensures
            r.wf(),
            r.entities() == Seq::<TrackedEntity>::empty(),
            r.images() == Seq::<ImageHistoryEntry>::empty(),
            r.names() == Seq::<NameHistoryEntry>::empty(),
    {
        HistoryRepo { entities: Vec::new(), images: Vec::new(), names: Vec::new() }
    }

    /// Whether `id` is enrolled.
    pub fn is_tracked(&self, id: i64) -> (r: bool)
        ensures
            r == is_tracked_in(self.entities(), id),
    {
        let n = self.entities.len();
        let mut i: usize = 0;
        while i < n
            invariant
                n == self.entities@.len(),
                0 <= i <= n,
                forall|j: int| 0 <= j < i ==> self.entities@[j].entity_id != id,
            decreases n - i,
        {
            if self.entities[i].entity_id == id {
                return true;
            }
            i += 1;
        }
        false
    }

    /// When `id` was enrolled, if it is.
    pub fn tracked_since(&self, id: i64) -> (r: Option<i64>)
        ensures
            (r is Some) == is_tracked_in(self.entities(), id),
            r matches Some(t) ==> exists|i: int|
                0 <= i < self.entities().len() && (#[trigger] self.entities()[i]).entity_id == id
                    && self.entities()[i].tracked_since == t,
    {
        let n = self.entities.len();
        let mut i: usize = 0;
        while i < n
            invariant
                n == self.entities@.len(),
                0 <= i <= n,
                forall|j: int| 0 <= j < i ==> self.entities@[j].entity_id != id,
            decreases n - i,
        {
            if self.entities[i].entity_id == id {
                return Some(self.entities[i].tracked_since);
            }
            i += 1;
        }
        None
    }

    /// How many entities are enrolled.
    pub fn tracked_count(&self) -> (n: usize)
        ensures
            n == self.entities().len(),
    {
        self.entities.len()
    }

    /// Enroll `id`. If it is already enrolled nothing changes and the existing
    /// `tracked_since` is reported; otherwise one entity row is appended with
    /// `tracked_since` set to `now`, once and forever.
    pub fn enroll(&mut self, id: i64, kind: EntityKind, now: i64) -> (r: EnrollOutcome)
        requires
            old(self).wf(),
        ensures
            final(self).wf(),
            final(self).images() == old(self).images(),
            final(self).names() == old(self).names(),
            is_tracked_in(old(self).entities(), id) ==> {
                &&& final(self).entities() == old(self).entities()
                &&& r matches EnrollOutcome::AlreadyTracked(t) && exists|i: int|
                    0 <= i < old(self).entities().len() && (#[trigger] old(self).entities()[i]).entity_id
                        == id && old(self).entities()[i].tracked_since == t
            },
            !is_tracked_in(old(self).entities(), id) ==> {
                &&& r == EnrollOutcome::Enrolled
                &&& final(self).entities() == old(self).entities().push(
                    TrackedEntity { entity_id: id, kind, tracked_since: now },
                )
            },
    {
        match self.tracked_since(id) {
            Some(t) => EnrollOutcome::AlreadyTracked(t),
            None => {
                let ghost pre = self.entities@;
                self.entities.push(TrackedEntity { entity_id: id, kind, tracked_since: now });
                proof {
                    let post = self.entities@;
                    assert forall|i: int, j: int| 0 <= i < j < post.len() implies post[i].entity_id
                        != post[j].entity_id by {
                        if j < pre.len() {
                            assert(post[i] == pre[i] && post[j] == pre[j]);
                        } else {
                            assert(post[i] == pre[i]);
                            assert(!is_tracked_in(pre, id));
                        }
                    }
                    assert forall|i: int|
                        0 <= i < self.images@.len() implies is_tracked_in(
                        post,
                        #[trigger] self.images@[i].entity_id,
                    ) by {
                        let w = choose|q: int|
                            0 <= q < pre.len() && pre[q].entity_id == self.images@[i].entity_id;
                        assert(post[w] == pre[w]);
                    }
                    assert forall|i: int|
                        0 <= i < self.names@.len() implies is_tracked_in(
                        post,
                        #[trigger] self.names@[i].account_id,
                    ) by {
                        let w = choose|q: int|
                            0 <= q < pre.len() && pre[q].entity_id == self.names@[i].account_id;
                        assert(post[w] == pre[w]);
                    }
                }
                EnrollOutcome::Enrolled
            },
        }
    }

    /// Whether some image row of `id` was observed exactly at `t`.
    fn observation_exists(&self, id: i64, t: i64) -> (r: bool)
        ensures
            r == has_observation_at(self.images(), id, t),
    {
        let n = self.images.len();
        let mut i: usize = 0;
        while i < n
            invariant
                n == self.images@.len(),
                0 <= i <= n,
                forall|j: int|
                    0 <= j < i ==> !((#[trigger] self.images@[j]).entity_id == id
                        && self.images@[j].observed_at == t),
            decreases n - i,
        {
            if self.images[i].entity_id == id && self.images[i].observed_at == t {
                return true;
            }
            i += 1;
        }
        false
    }

    /// Append one image row. Fails with `NotTracked` when the entity is not
    /// enrolled, and with `ConstraintViolation` when the entity already has a
    /// row at `observed_at`; otherwise the row is appended unchanged.
    pub fn insert_image_entry(
        &mut self,
        id: i64,
        fingerprint: String,
        link: String,
        observed_at: i64,
    ) -> (r: Result<(), RepoError>)
        requires
            old(self).wf(),
        ensures
            final(self).wf(),
            final(self).entities() == old(self).entities(),
            final(self).names() == old(self).names(),
            !is_tracked_in(old(self).entities(), id) ==> r == Err::<(), RepoError>(
                RepoError::NotTracked,
            ) && final(self).images() == old(self).images(),
            is_tracked_in(old(self).entities(), id) && has_observation_at(
                old(self).images(),
                id,
                observed_at,
            ) ==> r == Err::<(), RepoError>(RepoError::ConstraintViolation) && final(self).images()
                == old(self).images(),
            is_tracked_in(old(self).entities(), id) && !has_observation_at(
                old(self).images(),
                id,
                observed_at,
            ) ==> r == Ok::<(), RepoError>(()) && final(self).images() == old(self).images().push(
                ImageHistoryEntry { entity_id: id, fingerprint, archive_link: link, observed_at },
            ),
    {
        if !self.is_tracked(id) {
            return Err(RepoError::NotTracked);
        }
        if self.observation_exists(id, observed_at) {
            return Err(RepoError::ConstraintViolation);
        }
        let ghost pre = self.images@;
        self.images.push(
            ImageHistoryEntry { entity_id: id, fingerprint, archive_link: link, observed_at },
        );
        proof {
            let post = self.images@;
            assert forall|i: int, j: int|
                0 <= i < j < post.len() && post[i].entity_id == post[j].entity_id implies post[i].observed_at
                != post[j].observed_at by {
                if j < pre.len() {
                    assert(post[i] == pre[i] && post[j] == pre[j]);
                } else {
                    assert(post[i] == pre[i]);
                }
            }
            assert forall|i: int|
                0 <= i < post.len() implies is_tracked_in(
                self.entities@,
                (#[trigger] post[i]).entity_id,
            ) by {
                if i < pre.len() {
                    assert(post[i] == pre[i]);
                }
            }
        }
        Ok(())
    }

    /// The most recent image row of `id` that carries `fingerprint`: the row
    /// whose durable link a reappearance may reuse.
    pub fn find_by_fingerprint<'a>(&'a self, id: i64, fingerprint: &String) -> (r: Option<
        &'a ImageHistoryEntry,
    >)
        ensures
            match r {
                Some(e) => latest_match_of(self.images(), id, fingerprint@) == Some(*e),
                None => !has_image_fingerprint(self.images(), id, fingerprint@),
            },
    {
        let n = self.images.len();
        let mut best: Option<usize> = None;
        let mut i: usize = 0;
        while i < n
            invariant
                n == self.images@.len(),
                0 <= i <= n,
                match best {
                    Some(b) => b < i && latest_match_of(self.images@.take(i as int), id, fingerprint@)
                        == Some(self.images@[b as int]),
                    None => latest_match_of(self.images@.take(i as int), id, fingerprint@) is None,
                },
            decreases n - i,
        {
            let e = &self.images[i];
            proof {
                assert(self.images@.take(i + 1) =~= self.images@.take(i as int).push(self.images@[i as int]));
                lemma_latest_match_of_step(self.images@.take(i as int), id, fingerprint@, self.images@[i as int]);
            }
            if e.entity_id == id && e.fingerprint == *fingerprint {
                match best {
                    Some(b) => {
                        if e.observed_at >= self.images[b].observed_at {
                            best = Some(i);
                        }
                    },
                    None => {
                        best = Some(i);
                    },
                }
            }
            i += 1;
        }
        proof {
            assert(self.images@.take(n as int) =~= self.images@);
            lemma_latest_match_of_membership(self.images@, id, fingerprint@);
        }
        match best {
            Some(b) => Some(&self.images[b]),
            None => None,
        }
    }

    /// The image row of `id` with the greatest `observed_at`: the entity's
    /// current state, or `None` when it has no history yet.
    pub fn most_recent<'a>(&'a self, id: i64) -> (r: Option<&'a ImageHistoryEntry>)
        ensures
            match r {
                Some(e) => latest_of(self.images(), id) == Some(*e),
                None => latest_of(self.images(), id) is None,
            },
    {
        let n = self.images.len();
        let mut best: Option<usize> = None;
        let mut i: usize = 0;
        while i < n
            invariant
                n == self.images@.len(),
                0 <= i <= n,
                match best {
                    Some(b) => b < i && latest_of(self.images@.take(i as int), id) == Some(
                        self.images@[b as int],
                    ),
                    None => latest_of(self.images@.take(i as int), id) is None,
                },
            decreases n - i,
        {
            let e = &self.images[i];
            proof {
                assert(self.images@.take(i + 1) =~= self.images@.take(i as int).push(self.images@[i as int]));
                lemma_latest_of_step(self.images@.take(i as int), id, self.images@[i as int]);
            }
            if e.entity_id == id {
                match best {
                    Some(b) => {
                        if e.observed_at >= self.images[b].observed_at {
                            best = Some(i);
                        }
                    },
                    None => {
                        best = Some(i);
                    },
                }
            }
            i += 1;
        }
        proof {
            assert(self.images@.take(n as int) =~= self.images@);
        }
        match best {
            Some(b) => Some(&self.images[b]),
            None => None,
        }
    }

    /// Whether a name row with exactly `name` exists for `account`, at any
    /// point of its history.
    pub fn exists_by_name(&self, account: i64, name: &String) -> (r: bool)
        ensures
            r == has_name(self.names(), account, name@),
    {
        let n = self.names.len();
        let mut i: usize = 0;
        while i < n
            invariant
                n == self.names@.len(),
                0 <= i <= n,
                forall|j: int|
                    0 <= j < i ==> !((#[trigger] self.names@[j]).account_id == account
                        && self.names@[j].name@ == name@),
            decreases n - i,
        {
            if self.names[i].account_id == account && self.names[i].name == *name {
                return true;
            }
            i += 1;
        }
        false
    }

    /// Append one name row. Fails with `NotTracked` when the account is not
    /// enrolled, and with `ConstraintViolation` when this exact name was
    /// already recorded for the account; otherwise the row is appended.
    pub fn insert_name_entry(&mut self, account: i64, name: String, observed_at: i64) -> (r: Result<
        (),
        RepoError,
    >)
        requires
            old(self).wf(),
        ensures
            final(self).wf(),
            final(self).entities() == old(self).entities(),
            final(self).images() == old(self).images(),
            !is_tracked_in(old(self).entities(), account) ==> r == Err::<(), RepoError>(
                RepoError::NotTracked,
            ) && final(self).names() == old(self).names(),
            is_tracked_in(old(self).entities(), account) && has_name(
                old(self).names(),
                account,
                name@,
            ) ==> r == Err::<(), RepoError>(RepoError::ConstraintViolation) && final(self).names()
                == old(self).names(),
            is_tracked_in(old(self).entities(), account) && !has_name(
                old(self).names(),
                account,
                name@,
            ) ==> r == Ok::<(), RepoError>(()) && final(self).names() == old(self).names().push(
                NameHistoryEntry { account_id: account, name, observed_at },
            ),
    {
        if !self.is_tracked(account) {
            return Err(RepoError::NotTracked);
        }
        if self.exists_by_name(account, &name) {
            return Err(RepoError::ConstraintViolation);
        }
        let ghost pre = self.names@;
        self.names.push(NameHistoryEntry { account_id: account, name, observed_at });
        proof {
            let post = self.names@;
            assert forall|i: int, j: int|
                0 <= i < j < post.len() && post[i].account_id == post[j].account_id implies post[i].name@
                != post[j].name@ by {
                if j < pre.len() {
                    assert(post[i] == pre[i] && post[j] == pre[j]);
                } else {
                    assert(post[i] == pre[i]);
                }
            }
            assert forall|i: int|
                0 <= i < post.len() implies is_tracked_in(
                self.entities@,
                (#[trigger] post[i]).account_id,
            ) by {
                if i < pre.len() {
                    assert(post[i] == pre[i]);
                }
            }
        }
        Ok(())
    }

    /// The image rows of `id`, in insertion order.
    pub fn image_entries(&self, id: i64) -> (r: Vec<ImageHistoryEntry>)
        ensures
            r@ == image_entries_for(self.images(), id),
    {
        let n = self.images.len();
        let mut kept: Vec<ImageHistoryEntry> = Vec::new();
        let mut i: usize = 0;
        while i < n
            invariant
                n == self.images@.len(),
                0 <= i <= n,
                kept@ == self.images@.take(i as int).filter(owned_image(id)),
            decreases n - i,
        {
            proof {
                assert(self.images@.take(i + 1) =~= self.images@.take(i as int).push(self.images@[i as int]));
                lemma_filter_push(self.images@.take(i as int), owned_image(id), self.images@[i as int]);
            }
            if self.images[i].entity_id == id {
                kept.push(self.images[i].clone());
            }
            i += 1;
        }
        proof {
            assert(self.images@.take(n as int) =~= self.images@);
        }
        kept
    }

    /// The name rows of `account`, in insertion order.
    pub fn name_entries(&self, account: i64) -> (r: Vec<NameHistoryEntry>)
        ensures
            r@ == name_entries_for(self.names(), account),
    {
        let n = self.names.len();
        let mut kept: Vec<NameHistoryEntry> = Vec::new();
        let mut i: usize = 0;
        while i < n
            invariant
                n == self.names@.len(),
                0 <= i <= n,
                kept@ == self.names@.take(i as int).filter(owned_name(account)),
            decreases n - i,
        {
            proof {
                assert(self.names@.take(i + 1) =~= self.names@.take(i as int).push(self.names@[i as int]));
                lemma_filter_push(self.names@.take(i as int), owned_name(account), self.names@[i as int]);
            }
            if self.names[i].account_id == account {
                kept.push(self.names[i].clone());
            }
            i += 1;
        }
        proof {
            assert(self.names@.take(n as int) =~= self.names@);
        }
        kept
    }

    /// The image rows of `id`, most recent first: the order in which the
    /// history display pages through them.
    pub fn image_entries_newest_first(&self, id: i64) -> (r: Vec<ImageHistoryEntry>)
        ensures
            r@.to_multiset() == image_entries_for(self.images(), id).to_multiset(),
            forall|i: int, j: int| 0 <= i < j < r@.len() ==> r@[i].observed_at >= r@[j].observed_at,
    {
        broadcast use vstd::seq_lib::group_to_multiset_ensures;

        let ghost whole = image_entries_for(self.images(), id).to_multiset();
        let mut rest = self.image_entries(id);
        let mut out: Vec<ImageHistoryEntry> = Vec::new();
        proof {
            assert(out@.to_multiset().add(rest@.to_multiset()) =~= whole);
        }
        while rest.len() > 0
            invariant
                out@.to_multiset().add(rest@.to_multiset()) == whole,
                forall|i: int, j: int|
                    0 <= i < j < out@.len() ==> out@[i].observed_at >= out@[j].observed_at,
                forall|i: int, j: int|
                    0 <= i < out@.len() && 0 <= j < rest@.len() ==> out@[i].observed_at
                        >= rest@[j].observed_at,
            decreases rest@.len(),
        {
            let mut best: usize = 0;
            let mut k: usize = 1;
            while k < rest.len()
                invariant
                    rest@.len() > 0,
                    0 <= best < k <= rest@.len(),
                    forall|j: int|
                        0 <= j < k ==> rest@[j].observed_at <= rest@[best as int].observed_at,
                decreases rest@.len() - k,
            {
                if rest[k].observed_at > rest[best].observed_at {
                    best = k;
                }
                k += 1;
            }
            let ghost pre_out = out@;
            let ghost pre_rest = rest@;
            let e = rest.remove(best);
            out.push(e);
            proof {
                broadcast use vstd::multiset::group_multiset_axioms;
                broadcast use vstd::seq_lib::group_to_multiset_ensures;

                assert(pre_rest[best as int] == e);
                assert(pre_rest.contains(e));
                assert(out@ == pre_out.push(e));
                assert(rest@ == pre_rest.remove(best as int));
                assert(pre_out.push(e).to_multiset() =~= pre_out.to_multiset().insert(e));
                assert(pre_rest.remove(best as int).to_multiset() =~= pre_rest.to_multiset().remove(
                    pre_rest[best as int],
                ));
                assert(out@.to_multiset() =~= pre_out.to_multiset().insert(e));
                assert(rest@.to_multiset() =~= pre_rest.to_multiset().remove(e));
                assert(pre_rest.to_multiset().count(e) > 0);
                assert(out@.to_multiset().add(rest@.to_multiset()) =~= pre_out.to_multiset().add(
                    pre_rest.to_multiset(),
                ));
                assert forall|i: int, j: int|
                    0 <= i < out@.len() && 0 <= j < rest@.len() implies out@[i].observed_at
                    >= rest@[j].observed_at by {
                    if j < best {
                        assert(rest@[j] == pre_rest[j]);
                    } else {
                        assert(rest@[j] == pre_rest[j + 1]);
                    }
                }
            }
        }
        proof {
            broadcast use vstd::multiset::group_multiset_axioms;

            assert forall|a: ImageHistoryEntry| rest@.to_multiset().count(a) == 0 by {
                assert(!rest@.contains(a));
            }
            assert(rest@.to_multiset() =~= vstd::multiset::Multiset::<ImageHistoryEntry>::empty());
            assert(out@.to_multiset().add(rest@.to_multiset()) =~= out@.to_multiset());
        }
        out
    }

    /// The name rows of `account`, most recent first: the order in which the
    /// history display pages through them.
    pub fn name_entries_newest_first(&self, account: i64) -> (r: Vec<NameHistoryEntry>)
        ensures
            r@.to_multiset() == name_entries_for(self.names(), account).to_multiset(),
            forall|i: int, j: int| 0 <= i < j < r@.len() ==> r@[i].observed_at >= r@[j].observed_at,
    {
        broadcast use vstd::seq_lib::group_to_multiset_ensures;

        let ghost whole = name_entries_for(self.names(), account).to_multiset();
        let mut rest = self.name_entries(account);
        let mut out: Vec<NameHistoryEntry> = Vec::new();
        proof {
            assert(out@.to_multiset().add(rest@.to_multiset()) =~= whole);
        }
        while rest.len() > 0
            invariant
                out@.to_multiset().add(rest@.to_multiset()) == whole,
                forall|i: int, j: int|
                    0 <= i < j < out@.len() ==> out@[i].observed_at >= out@[j].observed_at,
                forall|i: int, j: int|
                    0 <= i < out@.len() && 0 <= j < rest@.len() ==> out@[i].observed_at
                        >= rest@[j].observed_at,
            decreases rest@.len(),
        {
            let mut best: usize = 0;
            let mut k: usize = 1;
            while k < rest.len()
                invariant
                    rest@.len() > 0,
                    0 <= best < k <= rest@.len(),
                    forall|j: int|
                        0 <= j < k ==> rest@[j].observed_at <= rest@[best as int].observed_at,
                decreases rest@.len() - k,
            {
                if rest[k].observed_at > rest[best].observed_at {
                    best = k;
                }
                k += 1;
            }
            let ghost pre_out = out@;
            let ghost pre_rest = rest@;
            let e = rest.remove(best);
            out.push(e);
            proof {
                broadcast use vstd::multiset::group_multiset_axioms;
                broadcast use vstd::seq_lib::group_to_multiset_ensures;

                assert(pre_rest[best as int] == e);
                assert(pre_rest.contains(e));
                assert(out@ == pre_out.push(e));
                assert(rest@ == pre_rest.remove(best as int));
                assert(pre_out.push(e).to_multiset() =~= pre_out.to_multiset().insert(e));
                assert(pre_rest.remove(best as int).to_multiset() =~= pre_rest.to_multiset().remove(
                    pre_rest[best as int],
                ));
                assert(out@.to_multiset() =~= pre_out.to_multiset().insert(e));
                assert(rest@.to_multiset() =~= pre_rest.to_multiset().remove(e));
                assert(pre_rest.to_multiset().count(e) > 0);
                assert(out@.to_multiset().add(rest@.to_multiset()) =~= pre_out.to_multiset().add(
                    pre_rest.to_multiset(),
                ));
                assert forall|i: int, j: int|
                    0 <= i < out@.len() && 0 <= j < rest@.len() implies out@[i].observed_at
                    >= rest@[j].observed_at by {
                    if j < best {
                        assert(rest@[j] == pre_rest[j]);
                    } else {
                        assert(rest@[j] == pre_rest[j + 1]);
                    }
                }
            }
        }
        proof {
            broadcast use vstd::multiset::group_multiset_axioms;

            assert forall|a: NameHistoryEntry| rest@.to_multiset().count(a) == 0 by {
                assert(!rest@.contains(a));
            }
            assert(rest@.to_multiset() =~= vstd::multiset::Multiset::<NameHistoryEntry>::empty());
            assert(out@.to_multiset().add(rest@.to_multiset()) =~= out@.to_multiset());
        }
        out
    }

    /// How many image rows `id` owns.
    pub fn image_count(&self, id: i64) -> (c: usize)
        ensures
            c == image_entries_for(self.images(), id).len(),
    {
        self.image_entries(id).len()
    }

    /// How many name rows `account` owns.
    pub fn name_count(&self, account: i64) -> (c: usize)
        ensures
            c == name_entries_for(self.names(), account).len(),
    {
        self.name_entries(account).len()
    }

    /// The ids of the tracked entities of one kind, in enrollment order: the
    /// work list of a reconciliation cycle.
    pub fn tracked_ids_of_kind(&self, kind: EntityKind) -> (r: Vec<i64>)
        ensures
            r@.len() == self.entities().filter(of_kind(kind)).len(),
            forall|i: int|
                0 <= i < r@.len() ==> r@[i] == self.entities().filter(of_kind(kind))[i].entity_id,
    {
        let n = self.entities.len();
        let mut ids: Vec<i64> = Vec::new();
        let mut i: usize = 0;
        while i < n
            invariant
                n == self.entities@.len(),
                0 <= i <= n,
                ids@.len() == self.entities@.take(i as int).filter(of_kind(kind)).len(),
                forall|j: int|
                    0 <= j < ids@.len() ==> ids@[j] == self.entities@.take(i as int).filter(
                        of_kind(kind),
                    )[j].entity_id,
            decreases n - i,
        {
            proof {
                assert(self.entities@.take(i + 1) =~= self.entities@.take(i as int).push(self.entities@[i as int]));
                lemma_filter_push(self.entities@.take(i as int), of_kind(kind), self.entities@[i as int]);
            }
            if self.entities[i].kind == kind {
                ids.push(self.entities[i].entity_id);
            }
            i += 1;
        }
        proof {
            assert(self.entities@.take(n as int) =~= self.entities@);
        }
        ids
    }

    /// Remove `id` and cascade to all of its image and name history in one
    /// step: afterwards no row of any table references `id`, and every row of
    /// another entity stands as it was, in its old order.
    pub fn delete_entity(&mut self, id: i64) -> (removed: bool)
        requires
            old(self).wf(),
        ensures
            final(self).wf(),
            removed == is_tracked_in(old(self).entities(), id),
            final(self).entities() == old(self).entities().filter(not_entity(id)),
            final(self).images() == old(self).images().filter(not_owned_image(id)),
            final(self).names() == old(self).names().filter(not_owned_name(id)),
            !is_tracked_in(final(self).entities(), id),
            no_image_history_for(final(self).images(), id),
            no_name_history_for(final(self).names(), id),
    {
        let removed = self.is_tracked(id);

        let n_e = self.entities.len();
        let mut kept_e: Vec<TrackedEntity> = Vec::new();
        let mut i: usize = 0;
        while i < n_e
            invariant
                n_e == self.entities@.len(),
                0 <= i <= n_e,
                kept_e@ == self.entities@.take(i as int).filter(not_entity(id)),
            decreases n_e - i,
        {
            proof {
                assert(self.entities@.take(i + 1) =~= self.entities@.take(i as int).push(self.entities@[i as int]));
                lemma_filter_push(self.entities@.take(i as int), not_entity(id), self.entities@[i as int]);
            }
            if self.entities[i].entity_id != id {
                kept_e.push(self.entities[i].clone());
            }
            i += 1;
        }

        let n_i = self.images.len();
        let mut kept_i: Vec<ImageHistoryEntry> = Vec::new();
        let mut j: usize = 0;
        while j < n_i
            invariant
                n_i == self.images@.len(),
                0 <= j <= n_i,
                kept_i@ == self.images@.take(j as int).filter(not_owned_image(id)),
            decreases n_i - j,
        {
            proof {
                assert(self.images@.take(j + 1) =~= self.images@.take(j as int).push(self.images@[j as int]));
                lemma_filter_push(self.images@.take(j as int), not_owned_image(id), self.images@[j as int]);
            }
            if self.images[j].entity_id != id {
                kept_i.push(self.images[j].clone());
            }
            j += 1;
        }

        let n_n = self.names.len();
        let mut kept_n: Vec<NameHistoryEntry> = Vec::new();
        let mut k: usize = 0;
        while k < n_n
            invariant
                n_n == self.names@.len(),
                0 <= k <= n_n,
                kept_n@ == self.names@.take(k as int).filter(not_owned_name(id)),
            decreases n_n - k,
        {
            proof {
                assert(self.names@.take(k + 1) =~= self.names@.take(k as int).push(self.names@[k as int]));
                lemma_filter_push(self.names@.take(k as int), not_owned_name(id), self.names@[k as int]);
            }
            if self.names[k].account_id != id {
                kept_n.push(self.names[k].clone());
            }
            k += 1;
        }

        proof {
            assert(self.entities@.take(n_e as int) =~= self.entities@);
            assert(self.images@.take(n_i as int) =~= self.images@);
            assert(self.names@.take(n_n as int) =~= self.names@);

            lemma_filter_unique_entities(self.entities@, not_entity(id));
            lemma_filter_unique_observations(self.images@, not_owned_image(id));
            lemma_filter_unique_names(self.names@, not_owned_name(id));
            lemma_filter_subset(self.images@, not_owned_image(id));
            lemma_filter_subset(self.names@, not_owned_name(id));
        }
        let ghost old_entities = self.entities@;
        let ghost old_images = self.images@;
        let ghost old_names = self.names@;

        self.entities = kept_e;
        self.images = kept_i;
        self.names = kept_n;

        proof {
            let fe = old_entities.filter(not_entity(id));
            let fi = old_images.filter(not_owned_image(id));
            let fn_ = old_names.filter(not_owned_name(id));
            assert forall|p: int| 0 <= p < fi.len() implies is_tracked_in(
                fe,
                (#[trigger] fi[p]).entity_id,
            ) by {
                assert(old_images.contains(fi[p]));
                let q = choose|q: int| 0 <= q < old_images.len() && old_images[q] == fi[p];
                assert(is_tracked_in(old_entities, fi[p].entity_id));
                let w = choose|w: int|
                    0 <= w < old_entities.len() && old_entities[w].entity_id == fi[p].entity_id;
                assert((not_entity(id))(old_entities[w]));
                old_entities.lemma_filter_contains(not_entity(id), w);
                let v = choose|v: int| 0 <= v < fe.len() && fe[v] == old_entities[w];
            }
            assert forall|p: int| 0 <= p < fn_.len() implies is_tracked_in(
                fe,
                (#[trigger] fn_[p]).account_id,
            ) by {
                assert(old_names.contains(fn_[p]));
                assert(is_tracked_in(old_entities, fn_[p].account_id));
                let w = choose|w: int|
                    0 <= w < old_entities.len() && old_entities[w].entity_id == fn_[p].account_id;
                assert((not_entity(id))(old_entities[w]));
                old_entities.lemma_filter_contains(not_entity(id), w);
                let v = choose|v: int| 0 <= v < fe.len() && fe[v] == old_entities[w];
            }
            assert forall|p: int| 0 <= p < fe.len() implies (#[trigger] fe[p]).entity_id != id by {
                old_entities.lemma_filter_pred(not_entity(id), p);
            }
            assert forall|p: int| 0 <= p < fi.len() implies (#[trigger] fi[p]).entity_id != id by {
                old_images.lemma_filter_pred(not_owned_image(id), p);
            }
            assert forall|p: int| 0 <= p < fn_.len() implies (#[trigger] fn_[p]).account_id != id by {
                old_names.lemma_filter_pred(not_owned_name(id), p);
            }
        }
        removed
    }
}

/// The predicate that `tracked_ids_of_kind` selects by.
pub open spec fn of_kind(kind: EntityKind) -> spec_fn(TrackedEntity) -> bool {
    |e: TrackedEntity| e.kind == kind
}

} // verus!
