//! The reconciliation engine: for one tracked entity and one observation of
//! its source, decide whether a new history row is warranted, whether the
//! bytes must be archived, or whether a previously archived link is reused.
//!
//! Fetching bytes and uploading them to the archival store are remote calls
//! made by the caller; the engine takes the observation (and later the durable
//! link) as values and performs every repository write itself.

use vstd::prelude::*;

use crate::fingerprint::fingerprint;
use crate::fingerprint::sha1_hex_of;
use crate::model::ImageHistoryEntry;
use crate::model::NameHistoryEntry;
use crate::model::has_image_fingerprint;
use crate::model::has_name;
use crate::model::has_observation_at;
use crate::model::is_tracked_in;
use crate::model::latest_match_of;
use crate::model::latest_of;
use crate::model::image_entries_for;
use crate::model::lemma_filter_push;
use crate::model::lemma_image_entries_empty;
use crate::model::lemma_latest_match_of_membership;
use crate::model::lemma_latest_match_of_step;
use crate::model::lemma_latest_of_membership;
use crate::model::lemma_latest_of_push;
use crate::model::lemma_name_entries_empty;
use crate::model::lemma_name_query_push;
use crate::model::lemma_queries_push;
use crate::model::name_entries_for;
use crate::model::no_image_history_for;
use crate::model::no_name_history_for;
use crate::model::owned_image;
use crate::model::owned_name;
use crate::repository::HistoryRepo;
use crate::repository::RepoError;

verus! {

/// What the entity source reported for one entity in one cycle.
#[derive(Debug)]
pub enum SourceEvent {
    /// The entity exists but currently has no image: expected steady state,
    /// not an error.
    NoImage,
    /// The source could not resolve the entity this cycle.
    Unavailable,
    /// Fetching the image bytes failed in transit.
    TransportFailed,
    /// The current image bytes, fetched in full.
    Image(Vec<u8>),
}

/// The per-entity result of one reconciliation.
#[derive(Debug)]
pub enum Outcome {
    /// The source still shows the content of the most recent history row.
    Unchanged,
    /// Content never seen before: it was archived and appended.
    Archived(ImageHistoryEntry),
    /// Content seen before but not current: appended reusing the old link.
    Reused(ImageHistoryEntry),
    /// The entity has no image this cycle.
    NoImage,
    /// The source could not resolve the entity this cycle.
    SourceUnavailable,
    /// A transport failure; the entity is skipped this cycle.
    TransportError,
}

/// Why a reconciliation write was refused.
#[derive(Clone, Copy, PartialEq, Eq, Structural, Debug)]
pub enum ReconcileError {
    /// The entity is not enrolled.
    NotTracked,
    /// The write would break the one-row-per-instant invariant.
    ConstraintViolation,
}

/// What one image reconciliation step decided.
#[derive(Debug)]
pub enum ReconcileStep {
    /// Settled without archival work.
    Done(Outcome),
    /// First sight of this content: the caller must archive the bytes and
    /// then record the durable link. Carries the content fingerprint.
    ArchiveNeeded(String),
    /// The write was refused.
    Failed(ReconcileError),
}

/// What one display-name reconciliation decided.
#[derive(Debug)]
pub enum NameStep {
    /// First time this name was ever seen for the account: one row appended.
    Recorded(NameHistoryEntry),
    /// The name already stands somewhere in the account's history: no row.
    AlreadyKnown,
    /// The source reported no display name.
    NoName,
    /// The account is not enrolled.
    NotTracked,
}

/// No table changed.
pub open spec fn repo_unchanged(pre: HistoryRepo, post: HistoryRepo) -> bool {
    &&& post.entities() == pre.entities()
    &&& post.images() == pre.images()
    &&& post.names() == pre.names()
}

/// Exactly one image row was appended, and nothing else changed.
pub open spec fn images_only_push(pre: HistoryRepo, post: HistoryRepo, e: ImageHistoryEntry) -> bool {
    &&& post.images() == pre.images().push(e)
    &&& post.entities() == pre.entities()
    &&& post.names() == pre.names()
}

/// Whether the most recent image row of `id` carries fingerprint `f`: the
/// entity's current state is exactly this content.
pub open spec fn latest_has_fingerprint(s: Seq<ImageHistoryEntry>, id: i64, f: Seq<char>) -> bool {
    latest_of(s, id) matches Some(m) && m.fingerprint@ == f
}

/// The full decision table of one image reconciliation step, for an
/// observation whose bytes carry fingerprint `f` at instant `now`:
/// not enrolled — refused, nothing written; fingerprint never seen — archival
/// is needed, nothing written yet; fingerprint is the current state — no row;
/// a second row at the same instant — refused; otherwise a reappearance — one
/// row appended reusing the link of the most recent row with this fingerprint.
pub open spec fn image_step_rel(
    pre: HistoryRepo,
    post: HistoryRepo,
    id: i64,
    f: Seq<char>,
    now: i64,
    step: ReconcileStep,
) -> bool {
    if !is_tracked_in(pre.entities(), id) {
        &&& step == ReconcileStep::Failed(ReconcileError::NotTracked)
        &&& repo_unchanged(pre, post)
    } else if !has_image_fingerprint(pre.images(), id, f) {
        &&& step matches ReconcileStep::ArchiveNeeded(fp) && fp@ == f
        &&& repo_unchanged(pre, post)
    } else if latest_has_fingerprint(pre.images(), id, f) {
        &&& step == ReconcileStep::Done(Outcome::Unchanged)
        &&& repo_unchanged(pre, post)
    } else if has_observation_at(pre.images(), id, now) {
        &&& step == ReconcileStep::Failed(ReconcileError::ConstraintViolation)
        &&& repo_unchanged(pre, post)
    } else {
        step matches ReconcileStep::Done(o) && o matches Outcome::Reused(e) && {
            &&& e.entity_id == id
            &&& e.fingerprint@ == f
            &&& e.observed_at == now
            &&& latest_match_of(pre.images(), id, f) matches Some(m) && e.archive_link@
                == m.archive_link@
            &&& images_only_push(pre, post, e)
        }
    }
}

/// `image_step_rel` dispatched over the source event: the three fetch
/// failures settle without any write, and an image observation follows the
/// decision table over the fingerprint of its bytes.
pub open spec fn event_step_rel(
    pre: HistoryRepo,
    post: HistoryRepo,
    id: i64,
    event: SourceEvent,
    now: i64,
    step: ReconcileStep,
) -> bool {
    match event {
        SourceEvent::NoImage => step == ReconcileStep::Done(Outcome::NoImage) && repo_unchanged(
            pre,
            post,
        ),
        SourceEvent::Unavailable => step == ReconcileStep::Done(Outcome::SourceUnavailable)
            && repo_unchanged(pre, post),
        SourceEvent::TransportFailed => step == ReconcileStep::Done(Outcome::TransportError)
            && repo_unchanged(pre, post),
        SourceEvent::Image(bytes) => image_step_rel(pre, post, id, sha1_hex_of(bytes@), now, step),
    }
}

/// The full decision table of recording an archived upload: the row is
/// appended with exactly the given fingerprint and link, unless the entity is
/// not enrolled or already has a row at `now`.
pub open spec fn record_rel(
    pre: HistoryRepo,
    post: HistoryRepo,
    id: i64,
    f: Seq<char>,
    link: Seq<char>,
    now: i64,
    r: Result<ImageHistoryEntry, ReconcileError>,
) -> bool {
    if !is_tracked_in(pre.entities(), id) {
        &&& r == Err::<ImageHistoryEntry, ReconcileError>(ReconcileError::NotTracked)
        &&& repo_unchanged(pre, post)
    } else if has_observation_at(pre.images(), id, now) {
        &&& r == Err::<ImageHistoryEntry, ReconcileError>(ReconcileError::ConstraintViolation)
        &&& repo_unchanged(pre, post)
    } else {
        r matches Ok(e) && {
            &&& e.entity_id == id
            &&& e.fingerprint@ == f
            &&& e.archive_link@ == link
            &&& e.observed_at == now
            &&& images_only_push(pre, post, e)
        }
    }
}

/// The full decision table of one display-name reconciliation: no name — no
/// row; not enrolled — refused; name ever seen before for this account — no
/// row; otherwise one name row appended.
pub open spec fn name_step_rel(
    pre: HistoryRepo,
    post: HistoryRepo,
    account: i64,
    name: Option<String>,
    now: i64,
    step: NameStep,
) -> bool {
    match name {
        Option::None => step == NameStep::NoName && repo_unchanged(pre, post),
        Option::Some(n) => {
            if !is_tracked_in(pre.entities(), account) {
                &&& step == NameStep::NotTracked
                &&& repo_unchanged(pre, post)
            } else if has_name(pre.names(), account, n@) {
                &&& step == NameStep::AlreadyKnown
                &&& repo_unchanged(pre, post)
            } else {
                step matches NameStep::Recorded(e) && {
                    &&& e.account_id == account
                    &&& e.name@ == n@
                    &&& e.observed_at == now
                    &&& post.names() == pre.names().push(e)
                    &&& post.entities() == pre.entities()
                    &&& post.images() == pre.images()
                }
            }
        },
    }
}

/// Reconcile one entity against what the source reported, writing at instant
/// `now`. Returns `ArchiveNeeded` instead of writing when the content must be
/// archived first; the caller then archives and calls `record_archived`.
pub fn reconcile_image_event(repo: &mut HistoryRepo, id: i64, event: &SourceEvent, now: i64) -> (step:
    ReconcileStep)
    requires
        old(repo).wf(),
    ensures
        final(repo).wf(),
        event_step_rel(*old(repo), *final(repo), id, *event, now, step),
{
    match event {
        SourceEvent::NoImage => ReconcileStep::Done(Outcome::NoImage),
        SourceEvent::Unavailable => ReconcileStep::Done(Outcome::SourceUnavailable),
        SourceEvent::TransportFailed => ReconcileStep::Done(Outcome::TransportError),
        SourceEvent::Image(bytes) => {
            let fp = fingerprint(bytes);
            if !repo.is_tracked(id) {
                return ReconcileStep::Failed(ReconcileError::NotTracked);
            }
            let found: Option<String> = match repo.find_by_fingerprint(id, &fp) {
                Some(m) => Some(m.archive_link.clone()),
                None => None,
            };
            match found {
                None => ReconcileStep::ArchiveNeeded(fp),
                Some(link) => {
                    proof {
                        lemma_latest_match_of_membership(repo.images(), id, fp@);
                    }
                    let same_as_latest: bool = match repo.most_recent(id) {
                        Some(latest) => latest.fingerprint == fp,
                        None => {
                            proof {
                                lemma_latest_of_membership(repo.images(), id);
                                assert(false);
                            }
                            false
                        },
                    };
                    if same_as_latest {
                        ReconcileStep::Done(Outcome::Unchanged)
                    } else {
                        match repo.insert_image_entry(id, fp.clone(), link.clone(), now) {
                            Ok(()) => ReconcileStep::Done(
                                Outcome::Reused(
                                    ImageHistoryEntry {
                                        entity_id: id,
                                        fingerprint: fp,
                                        archive_link: link,
                                        observed_at: now,
                                    },
                                ),
                            ),
                            Err(RepoError::ConstraintViolation) => ReconcileStep::Failed(
                                ReconcileError::ConstraintViolation,
                            ),
                            Err(RepoError::NotTracked) => {
                                proof {
                                    assert(false);
                                }
                                ReconcileStep::Failed(ReconcileError::NotTracked)
                            },
                        }
                    }
                },
            }
        },
    }
}

/// Record that the caller archived first-sight content: append the row that
/// carries the fingerprint the engine asked to archive and the durable link
/// the archival store returned.
pub fn record_archived(repo: &mut HistoryRepo, id: i64, fingerprint: String, link: String, now: i64) -> (r:
    Result<ImageHistoryEntry, ReconcileError>)
    requires
        old(repo).wf(),
    ensures
        final(repo).wf(),
        record_rel(*old(repo), *final(repo), id, fingerprint@, link@, now, r),
{
    match repo.insert_image_entry(id, fingerprint.clone(), link.clone(), now) {
        Ok(()) => Ok(
            ImageHistoryEntry { entity_id: id, fingerprint, archive_link: link, observed_at: now },
        ),
        Err(RepoError::NotTracked) => Err(ReconcileError::NotTracked),
        Err(RepoError::ConstraintViolation) => Err(ReconcileError::ConstraintViolation),
    }
}

/// Reconcile an account's display name against what the source reported: a
/// name is appended only the first time it is ever seen for the account.
pub fn reconcile_name_event(repo: &mut HistoryRepo, account: i64, name: Option<String>, now: i64) -> (step:
    NameStep)
    requires
        old(repo).wf(),
    ensures
        final(repo).wf(),
        name_step_rel(*old(repo), *final(repo), account, name, now, step),
{
    match name {
        None => NameStep::NoName,
        Some(n) => {
            if !repo.is_tracked(account) {
                return NameStep::NotTracked;
            }
            if repo.exists_by_name(account, &n) {
                return NameStep::AlreadyKnown;
            }
            match repo.insert_name_entry(account, n.clone(), now) {
                Ok(()) => NameStep::Recorded(
                    NameHistoryEntry { account_id: account, name: n, observed_at: now },
                ),
                Err(_) => {
                    proof {
                        assert(false);
                    }
                    NameStep::NotTracked
                },
            }
        },
    }
}

/// Relies on `chrono::Utc::now`: the wall clock at the call, as whole seconds
/// of Unix time. Nothing is assumed of the value.
#[verifier::external_body]
fn current_unix_time() -> i64 {
    chrono::Utc::now().timestamp()
}

/// `reconcile_image_event` at the current wall-clock second.
pub fn reconcile_image_event_now(repo: &mut HistoryRepo, id: i64, event: &SourceEvent) -> (step:
    ReconcileStep)
    requires
        old(repo).wf(),
    ensures
        final(repo).wf(),
        exists|t: i64| event_step_rel(*old(repo), *final(repo), id, *event, t, step),
{
    let now = current_unix_time();
    reconcile_image_event(repo, id, event, now)
}

/// `record_archived` at the current wall-clock second.
pub fn record_archived_now(repo: &mut HistoryRepo, id: i64, fingerprint: String, link: String) -> (r:
    Result<ImageHistoryEntry, ReconcileError>)
    requires
        old(repo).wf(),
    ensures
        final(repo).wf(),
        exists|t: i64| record_rel(*old(repo), *final(repo), id, fingerprint@, link@, t, r),
{
    let now = current_unix_time();
    record_archived(repo, id, fingerprint, link, now)
}

/// `reconcile_name_event` at the current wall-clock second.
pub fn reconcile_name_event_now(repo: &mut HistoryRepo, account: i64, name: Option<String>) -> (step:
    NameStep)
    requires
        old(repo).wf(),
    ensures
        final(repo).wf(),
        exists|t: i64| name_step_rel(*old(repo), *final(repo), account, name, t, step),
{
    let now = current_unix_time();
    reconcile_name_event(repo, account, name, now)
}


/// Law (dedup idempotence): reconciling the same entity twice in a row
/// against bytes with one fingerprint, where the first step settled as
/// `Unchanged` or `Reused` and was observed later than all prior rows, yields
/// `Unchanged` the second time and writes no row.
pub proof fn lemma_dedup_idempotence(
    r0: HistoryRepo,
    r1: HistoryRepo,
    r2: HistoryRepo,
    id: i64,
    f: Seq<char>,
    t1: i64,
    t2: i64,
    s1: ReconcileStep,
    s2: ReconcileStep,
)
    requires
        forall|i: int|
            0 <= i < r0.images().len() && (#[trigger] r0.images()[i]).entity_id == id
                ==> r0.images()[i].observed_at < t1,
        image_step_rel(r0, r1, id, f, t1, s1),
        s1 == ReconcileStep::Done(Outcome::Unchanged) || s1 matches ReconcileStep::Done(
            Outcome::Reused(_),
        ),
        image_step_rel(r1, r2, id, f, t2, s2),
    ensures
        s2 == ReconcileStep::Done(Outcome::Unchanged),
        repo_unchanged(r1, r2),
{
    if !is_tracked_in(r0.entities(), id) {
        assert(false);
    } else if !has_image_fingerprint(r0.images(), id, f) {
        assert(false);
    } else if latest_has_fingerprint(r0.images(), id, f) {
        assert(repo_unchanged(r0, r1));
    } else if has_observation_at(r0.images(), id, t1) {
        assert(false);
    } else {
        let e = choose|e: ImageHistoryEntry| s1 == ReconcileStep::Done(Outcome::Reused(e));
        assert(images_only_push(r0, r1, e));
        lemma_queries_push(r0.images(), id, f, t1, e);
        lemma_latest_of_push(r0.images(), id, e);
        assert(latest_of(r1.images(), id) == Some(e));
        assert(latest_has_fingerprint(r1.images(), id, f));
    }
}

/// Law (first-sight archival): for an entity with no prior image history,
/// reconciling asks for exactly one archival and writes nothing; recording
/// the archived link afterwards appends exactly one row, which carries the
/// observed fingerprint and the archived link.
pub proof fn lemma_first_sight_archival(
    r0: HistoryRepo,
    r1: HistoryRepo,
    r2: HistoryRepo,
    id: i64,
    f: Seq<char>,
    link: Seq<char>,
    t1: i64,
    t2: i64,
    s1: ReconcileStep,
    res: Result<ImageHistoryEntry, ReconcileError>,
)
    requires
        is_tracked_in(r0.entities(), id),
        no_image_history_for(r0.images(), id),
        image_step_rel(r0, r1, id, f, t1, s1),
        record_rel(r1, r2, id, f, link, t2, res),
    ensures
        s1 matches ReconcileStep::ArchiveNeeded(fp) && fp@ == f,
        repo_unchanged(r0, r1),
        res matches Ok(e) && e.entity_id == id && e.fingerprint@ == f && e.archive_link@ == link,
        image_entries_for(r2.images(), id).len() == 1,
        image_entries_for(r2.images(), id)[0].fingerprint@ == f,
        image_entries_for(r2.images(), id)[0].archive_link@ == link,
{
    assert(!has_image_fingerprint(r0.images(), id, f));
    assert(!has_observation_at(r1.images(), id, t2));
    let e = choose|e: ImageHistoryEntry| res == Ok::<ImageHistoryEntry, ReconcileError>(e);
    assert(images_only_push(r1, r2, e));
    lemma_image_entries_empty(r1.images(), id);
    lemma_filter_push(r1.images(), owned_image(id), e);
    assert(image_entries_for(r2.images(), id) == image_entries_for(r1.images(), id).push(e));
}

/// Law (reappearance reuse): observing content B, then C, then B again, for
/// an entity with no prior history and with strictly increasing observation
/// instants, asks for exactly two archivals (for B and for C), and ends with
/// three rows, of which the first and the third share both fingerprint and
/// archive link. B and C are assumed to carry distinct fingerprints.
pub proof fn lemma_reappearance_reuse(
    r0: HistoryRepo,
    r1: HistoryRepo,
    r2: HistoryRepo,
    r3: HistoryRepo,
    r4: HistoryRepo,
    r5: HistoryRepo,
    id: i64,
    fb: Seq<char>,
    fc: Seq<char>,
    lb: Seq<char>,
    lc: Seq<char>,
    t1: i64,
    t2: i64,
    t3: i64,
    s1: ReconcileStep,
    res1: Result<ImageHistoryEntry, ReconcileError>,
    s2: ReconcileStep,
    res2: Result<ImageHistoryEntry, ReconcileError>,
    s3: ReconcileStep,
)
    requires
        is_tracked_in(r0.entities(), id),
        no_image_history_for(r0.images(), id),
        fb != fc,
        t1 < t2 < t3,
        image_step_rel(r0, r1, id, fb, t1, s1),
        record_rel(r1, r2, id, fb, lb, t1, res1),
        image_step_rel(r2, r3, id, fc, t2, s2),
        record_rel(r3, r4, id, fc, lc, t2, res2),
        image_step_rel(r4, r5, id, fb, t3, s3),
    ensures
        s1 matches ReconcileStep::ArchiveNeeded(fp) && fp@ == fb,
        s2 matches ReconcileStep::ArchiveNeeded(fp) && fp@ == fc,
        s3 matches ReconcileStep::Done(o) && o matches Outcome::Reused(_),
        image_entries_for(r5.images(), id).len() == 3,
        image_entries_for(r5.images(), id)[0].fingerprint@ == fb,
        image_entries_for(r5.images(), id)[2].fingerprint@ == fb,
        image_entries_for(r5.images(), id)[0].archive_link@ == lb,
        image_entries_for(r5.images(), id)[2].archive_link@ == lb,
        image_entries_for(r5.images(), id)[1].fingerprint@ == fc,
        image_entries_for(r5.images(), id)[1].archive_link@ == lc,
{
    // First sight of B: archival asked, then row e1 = (fb, lb, t1) appended.
    assert(!has_image_fingerprint(r0.images(), id, fb));
    assert(repo_unchanged(r0, r1));
    assert(!has_observation_at(r1.images(), id, t1));
    let e1 = choose|e: ImageHistoryEntry| res1 == Ok::<ImageHistoryEntry, ReconcileError>(e);
    assert(images_only_push(r1, r2, e1));
    lemma_queries_push(r1.images(), id, fc, t2, e1);
    lemma_queries_push(r1.images(), id, fb, t3, e1);

    // First sight of C: archival asked, then row e2 = (fc, lc, t2) appended.
    assert(!has_image_fingerprint(r2.images(), id, fc));
    assert(repo_unchanged(r2, r3));
    assert(!has_observation_at(r3.images(), id, t2));
    let e2 = choose|e: ImageHistoryEntry| res2 == Ok::<ImageHistoryEntry, ReconcileError>(e);
    assert(images_only_push(r3, r4, e2));

    // B again: the fingerprint is known but is not the latest, so the link of
    // the most recent row carrying fb -- e1 -- is reused.
    lemma_queries_push(r3.images(), id, fb, t3, e2);
    assert(has_image_fingerprint(r4.images(), id, fb));
    lemma_latest_of_push(r1.images(), id, e1);
    assert(latest_of(r2.images(), id) == Some(e1));
    assert forall|i: int|
        0 <= i < r3.images().len() && (#[trigger] r3.images()[i]).entity_id == id
            implies r3.images()[i].observed_at < t2 by {
        if i < r1.images().len() {
            assert(r3.images()[i] == r1.images()[i]);
        } else {
            assert(r3.images()[i] == e1);
        }
    }
    lemma_latest_of_push(r3.images(), id, e2);
    assert(latest_of(r4.images(), id) == Some(e2));
    assert(!latest_has_fingerprint(r4.images(), id, fb));
    assert(!has_observation_at(r4.images(), id, t3));

    lemma_latest_match_of_membership(r1.images(), id, fb);
    lemma_latest_match_of_step(r1.images(), id, fb, e1);
    assert(latest_match_of(r2.images(), id, fb) == Some(e1));
    lemma_latest_match_of_step(r3.images(), id, fb, e2);
    assert(latest_match_of(r4.images(), id, fb) == Some(e1));

    let e3 = choose|e: ImageHistoryEntry|
        s3 == ReconcileStep::Done(Outcome::Reused(e));
    assert(images_only_push(r4, r5, e3));
    assert(e3.fingerprint@ == fb && e3.archive_link@ == lb);

    // The three rows of the entity, in order: e1, e2, e3.
    lemma_image_entries_empty(r1.images(), id);
    lemma_filter_push(r1.images(), owned_image(id), e1);
    lemma_filter_push(r3.images(), owned_image(id), e2);
    lemma_filter_push(r4.images(), owned_image(id), e3);
    assert(image_entries_for(r2.images(), id) == image_entries_for(r1.images(), id).push(e1));
    assert(image_entries_for(r4.images(), id) == image_entries_for(r3.images(), id).push(e2));
    assert(image_entries_for(r5.images(), id) == image_entries_for(r4.images(), id).push(e3));
}

/// Law (name append-once-ever): for an account with no prior name history,
/// observing names x, y, x with x and y distinct appends exactly two rows:
/// the third observation is suppressed because x already stands in the
/// account's history, although it is not the most recent.
pub proof fn lemma_name_append_once(
    r0: HistoryRepo,
    r1: HistoryRepo,
    r2: HistoryRepo,
    r3: HistoryRepo,
    account: i64,
    n1: String,
    n2: String,
    ta: i64,
    tb: i64,
    tc: i64,
    s1: NameStep,
    s2: NameStep,
    s3: NameStep,
)
    requires
        is_tracked_in(r0.entities(), account),
        no_name_history_for(r0.names(), account),
        n1@ != n2@,
        name_step_rel(r0, r1, account, Some(n1), ta, s1),
        name_step_rel(r1, r2, account, Some(n2), tb, s2),
        name_step_rel(r2, r3, account, Some(n1), tc, s3),
    ensures
        s1 matches NameStep::Recorded(e) && e.name@ == n1@,
        s2 matches NameStep::Recorded(e) && e.name@ == n2@,
        s3 == NameStep::AlreadyKnown,
        r3.names() == r2.names(),
        name_entries_for(r3.names(), account).len() == 2,
        name_entries_for(r3.names(), account)[0].name@ == n1@,
        name_entries_for(r3.names(), account)[1].name@ == n2@,
{
    assert(!has_name(r0.names(), account, n1@));
    let e1 = choose|e: NameHistoryEntry| s1 == NameStep::Recorded(e);
    assert(r1.names() == r0.names().push(e1));
    lemma_name_query_push(r0.names(), account, n2@, e1);
    assert(!has_name(r1.names(), account, n2@));
    let e2 = choose|e: NameHistoryEntry| s2 == NameStep::Recorded(e);
    assert(r2.names() == r1.names().push(e2));
    lemma_name_query_push(r0.names(), account, n1@, e1);
    lemma_name_query_push(r1.names(), account, n1@, e2);
    assert(has_name(r2.names(), account, n1@));

    lemma_name_entries_empty(r0.names(), account);
    lemma_filter_push(r0.names(), owned_name(account), e1);
    lemma_filter_push(r1.names(), owned_name(account), e2);
    assert(name_entries_for(r1.names(), account) == name_entries_for(r0.names(), account).push(e1));
    assert(name_entries_for(r2.names(), account) == name_entries_for(r1.names(), account).push(e2));
}

/// Law (serialized same-instant requests): two reconciliations of one entity
/// at the same instant, run one after the other as the per-entity mutual
/// exclusion demands, write at most one row between them, and the second one
/// never writes.
pub proof fn lemma_same_instant_at_most_one_row(
    r0: HistoryRepo,
    r1: HistoryRepo,
    r2: HistoryRepo,
    id: i64,
    f: Seq<char>,
    t: i64,
    s1: ReconcileStep,
    s2: ReconcileStep,
)
    requires
        image_step_rel(r0, r1, id, f, t, s1),
        image_step_rel(r1, r2, id, f, t, s2),
    ensures
        repo_unchanged(r1, r2),
        image_entries_for(r1.images(), id).len() <= image_entries_for(r0.images(), id).len() + 1,
{
    if !is_tracked_in(r0.entities(), id) || !has_image_fingerprint(r0.images(), id, f)
        || latest_has_fingerprint(r0.images(), id, f) || has_observation_at(r0.images(), id, t) {
        assert(repo_unchanged(r0, r1));
    } else {
        let e = choose|e: ImageHistoryEntry| s1 == ReconcileStep::Done(Outcome::Reused(e));
        assert(images_only_push(r0, r1, e));
        lemma_queries_push(r0.images(), id, f, t, e);
        assert(has_observation_at(r1.images(), id, t));
        lemma_filter_push(r0.images(), owned_image(id), e);
    }
}

/// Law (single commit per instant): once an archival was recorded for an
/// entity at some instant, a second record for the same entity and instant is
/// refused as a constraint violation and writes nothing.
pub proof fn lemma_same_instant_single_commit(
    r0: HistoryRepo,
    r1: HistoryRepo,
    r2: HistoryRepo,
    id: i64,
    f1: Seq<char>,
    f2: Seq<char>,
    l1: Seq<char>,
    l2: Seq<char>,
    t: i64,
    res1: Result<ImageHistoryEntry, ReconcileError>,
    res2: Result<ImageHistoryEntry, ReconcileError>,
)
    requires
        record_rel(r0, r1, id, f1, l1, t, res1),
        res1 is Ok,
        record_rel(r1, r2, id, f2, l2, t, res2),
    ensures
        res2 == Err::<ImageHistoryEntry, ReconcileError>(ReconcileError::ConstraintViolation),
        repo_unchanged(r1, r2),
{
    let e = choose|e: ImageHistoryEntry| res1 == Ok::<ImageHistoryEntry, ReconcileError>(e);
    assert(images_only_push(r0, r1, e));
    lemma_queries_push(r0.images(), id, f2, t, e);
    assert(has_observation_at(r1.images(), id, t));
}

/// Law (partial-failure isolation): one entity's reconciliation, whatever the
/// event -- a transport failure included -- leaves every other entity's image
/// and name history exactly as it was; and a transport failure settles as
/// `TransportError` with nothing written at all.
pub proof fn lemma_reconcile_isolation(
    r0: HistoryRepo,
    r1: HistoryRepo,
    id: i64,
    event: SourceEvent,
    t: i64,
    step: ReconcileStep,
    other: i64,
)
    requires
        event_step_rel(r0, r1, id, event, t, step),
        other != id,
    ensures
        image_entries_for(r1.images(), other) == image_entries_for(r0.images(), other),
        name_entries_for(r1.names(), other) == name_entries_for(r0.names(), other),
        r1.entities() == r0.entities(),
        event matches SourceEvent::TransportFailed ==> step == ReconcileStep::Done(
            Outcome::TransportError,
        ) && repo_unchanged(r0, r1),
{
    match event {
        SourceEvent::Image(bytes) => {
            let f = crate::fingerprint::sha1_hex_of(bytes@);
            if is_tracked_in(r0.entities(), id) && has_image_fingerprint(r0.images(), id, f)
                && !latest_has_fingerprint(r0.images(), id, f) && !has_observation_at(
                r0.images(),
                id,
                t,
            ) {
                let e = choose|e: ImageHistoryEntry|
                    step == ReconcileStep::Done(Outcome::Reused(e));
                assert(images_only_push(r0, r1, e));
                lemma_filter_push(r0.images(), owned_image(other), e);
            } else {
                assert(repo_unchanged(r0, r1));
            }
        },
        _ => {
            assert(repo_unchanged(r0, r1));
        },
    }
}

/// Law (record isolation): recording an archived upload for one entity leaves
/// every other entity's image and name history exactly as it was.
pub proof fn lemma_record_isolation(
    r0: HistoryRepo,
    r1: HistoryRepo,
    id: i64,
    f: Seq<char>,
    link: Seq<char>,
    t: i64,
    res: Result<ImageHistoryEntry, ReconcileError>,
    other: i64,
)
    requires
        record_rel(r0, r1, id, f, link, t, res),
        other != id,
    ensures
        image_entries_for(r1.images(), other) == image_entries_for(r0.images(), other),
        name_entries_for(r1.names(), other) == name_entries_for(r0.names(), other),
        r1.entities() == r0.entities(),
{
    if is_tracked_in(r0.entities(), id) && !has_observation_at(r0.images(), id, t) {
        let e = choose|e: ImageHistoryEntry| res == Ok::<ImageHistoryEntry, ReconcileError>(e);
        assert(images_only_push(r0, r1, e));
        lemma_filter_push(r0.images(), owned_image(other), e);
    } else {
        assert(repo_unchanged(r0, r1));
    }
}

/// Law (name isolation): one account's name reconciliation leaves every other
/// account's name history, and all image history, exactly as it was.
pub proof fn lemma_name_isolation(
    r0: HistoryRepo,
    r1: HistoryRepo,
    account: i64,
    name: Option<String>,
    t: i64,
    step: NameStep,
    other: i64,
)
    requires
        name_step_rel(r0, r1, account, name, t, step),
        other != account,
    ensures
        name_entries_for(r1.names(), other) == name_entries_for(r0.names(), other),
        r1.images() == r0.images(),
        r1.entities() == r0.entities(),
{
    match name {
        Option::Some(n) => {
            if is_tracked_in(r0.entities(), account) && !has_name(r0.names(), account, n@) {
                let e = choose|e: NameHistoryEntry| step == NameStep::Recorded(e);
                assert(r1.names() == r0.names().push(e));
                lemma_filter_push(r0.names(), owned_name(other), e);
            } else {
                assert(repo_unchanged(r0, r1));
            }
        },
        Option::None => {
            assert(repo_unchanged(r0, r1));
        },
    }
}

} // verus!
