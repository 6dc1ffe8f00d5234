//! The activity database: summaries in insertion order, and each
//! identifier's laps.

use vstd::prelude::*;

use crate::aggregate::{aggregate, average_heart_rate, distance_total, has_empty_input};
use crate::common::{lap_of, lap_views, sport_of, Activity, ActivityView, Lap, LapView, Sport};
use crate::error::Error;
use crate::id::{hex_bytes, id_of_key, is_id_text, Id, DIGEST_INPUT_LIMIT};
use crate::tcx;
use crate::tcx::{activities_of, read_activities, TrainingCenterDatabase};
use crate::units::Length;
use vstd::utf8::encode_utf8;

verus! {

/// What happens to the summary of an earlier activity when a later one has
/// the same identifier. Its laps are replaced either way.
#[derive(Clone, Copy, Debug, PartialEq, Eq, Structural)]
pub enum DuplicatePolicy {
    /// The later summary is appended; both summaries are kept.
    KeepAll,
    /// The later summary takes the place of the earlier one.
    LastWins,
}

/// The laps stored under one identifier.
struct LapEntry {
    id: Id,
    laps: Vec<Lap>,
}

/// Activity summaries in insertion order, and the laps of each identifier.
///
/// The laps are held as a list of entries whose identifiers are unique (see
/// `well_formed`), found by a linear search, not as a hash map. The key is an
/// `Id`, a struct of this library holding a byte array; for a std map keyed
/// by such a type Verus has no model of hashing and equality, so not even the
/// map's length after an insert could be proved. The ghost map `index` is
/// what the list stands for.
pub struct Database {
    activities: Vec<Activity>,
    entries: Vec<LapEntry>,
    policy: DuplicatePolicy,
    index: Ghost<Map<Seq<u8>, Seq<LapView>>>,
}

/// What a database holds, as values.
pub struct DatabaseView {
    pub activities: Seq<ActivityView>,
    pub laps: Map<Seq<u8>, Seq<LapView>>,
    pub policy: DuplicatePolicy,
}

/// What some activity summaries hold, as values.
pub open spec fn activity_views(activities: Seq<Activity>) -> Seq<ActivityView> {
    activities.map_values(|a: Activity| a@)
}

impl View for Database {
    type V = DatabaseView;

    closed spec fn view(&self) -> DatabaseView {
        DatabaseView {
            activities: activity_views(self.activities@),
            laps: self.index@,
            policy: self.policy,
        }
    }
}

/// The identifiers of some activity summaries.
pub open spec fn activity_ids(activities: Seq<ActivityView>) -> Set<Seq<u8>> {
    Set::new(|k: Seq<u8>| exists|i: int| 0 <= i < activities.len() && (#[trigger] activities[i]).id == k)
}

/// Whether no two summaries share an identifier.
pub open spec fn ids_unique(activities: Seq<ActivityView>) -> bool {
    forall|i: int, j: int|
        0 <= i < j < activities.len() ==> (#[trigger] activities[i]).id != (#[trigger] activities[j]).id
}

/// The place of the summary with a given identifier.
pub open spec fn index_of(activities: Seq<ActivityView>, id: Seq<u8>) -> int {
    choose|i: int| 0 <= i < activities.len() && (#[trigger] activities[i]).id == id
}

/// A database with one more activity: its laps replace any stored under its
/// identifier, and its summary is appended, or, when later summaries win,
/// takes the place of one with the same identifier.
pub open spec fn inserted(db: DatabaseView, activity: ActivityView, laps: Seq<LapView>) -> DatabaseView {
    DatabaseView {
        activities: if db.policy == DuplicatePolicy::LastWins && activity_ids(db.activities).contains(
            activity.id,
        ) {
            db.activities.update(index_of(db.activities, activity.id), activity)
        } else {
            db.activities.push(activity)
        },
        laps: db.laps.insert(activity.id, laps),
        policy: db.policy,
    }
}

/// A database with several activities inserted in turn.
pub open spec fn inserted_all(db: DatabaseView, items: Seq<(ActivityView, Seq<LapView>)>) -> DatabaseView
    decreases items.len(),
{
    if items.len() == 0 {
        db
    } else {
        let before = inserted_all(db, items.drop_last());
        inserted(before, items.last().0, items.last().1)
    }
}

/// The laps a decoded session's laps stand for; none when one is malformed.
pub open spec fn laps_of(laps: Seq<tcx::Lap>) -> Option<Seq<LapView>> {
    if forall|i: int| 0 <= i < laps.len() ==> (#[trigger] lap_of(laps[i])) is Some {
        Some(laps.map_values(|l: tcx::Lap| lap_of(l)->0))
    } else {
        None
    }
}

/// The summary and laps a decoded session gives, or the first failure.
pub open spec fn summary_of(a: tcx::Activity) -> Result<(ActivityView, Seq<LapView>), Error> {
    if encode_utf8(a.id@).len() >= DIGEST_INPUT_LIMIT {
        Err(Error::MalformedSession)
    } else {
        match laps_of(a.laps@) {
            None => Err(Error::MalformedSession),
            Some(laps) => if has_empty_input(laps) {
                Err(Error::EmptyAggregationInput)
            } else if distance_total(laps) > u64::MAX {
                Err(Error::MalformedSession)
            } else {
                Ok(
                    (
                        ActivityView {
                            sport: sport_of(a.sport@),
                            id: id_of_key(a.id@),
                            average_heart_rate: average_heart_rate(laps) as i64,
                            total_distance: Length { millimeters: distance_total(laps) as u64 },
                        },
                        laps,
                    ),
                )
            },
        }
    }
}

/// The summaries and laps of decoded sessions, in order, or the failure of
/// the first session that fails.
pub open spec fn summaries_of(activities: Seq<tcx::Activity>) -> Result<
    Seq<(ActivityView, Seq<LapView>)>,
    Error,
>
    decreases activities.len(),
{
    if activities.len() == 0 {
        Ok(Seq::empty())
    } else {
        match summaries_of(activities.drop_last()) {
            Err(e) => Err(e),
            Ok(items) => match summary_of(activities.last()) {
                Err(e) => Err(e),
                Ok(item) => Ok(items.push(item)),
            },
        }
    }
}

/// What derived summaries and laps hold, as values.
pub open spec fn item_views(items: Seq<(Activity, Vec<Lap>)>) -> Seq<(ActivityView, Seq<LapView>)> {
    items.map_values(|p: (Activity, Vec<Lap>)| (p.0@, lap_views(p.1@)))
}

/// A failure among the first sessions is the failure of them all.
proof fn lemma_summaries_prefix_failure(activities: Seq<tcx::Activity>, k: int)
    requires
        0 <= k <= activities.len(),
        summaries_of(activities.subrange(0, k)) is Err,
    ensures
        summaries_of(activities) == summaries_of(activities.subrange(0, k)),
    decreases activities.len(),
{
    if activities.len() == k {
        assert(activities.subrange(0, k) =~= activities);
    } else {
        let shorter = activities.drop_last();
        assert(shorter.subrange(0, k) =~= activities.subrange(0, k));
        lemma_summaries_prefix_failure(shorter, k);
    }
}

/// Normalises and summarises one decoded session.
pub fn summarize(a: &tcx::Activity) -> (r: Result<(Activity, Vec<Lap>), Error>)
    ensures
        r is Ok <==> summary_of(*a) is Ok,
        r matches Err(e) ==> summary_of(*a) == Result::<(ActivityView, Seq<LapView>), Error>::Err(e),
        r matches Ok((s, l)) ==> summary_of(*a) matches Ok(x) && x.0 == s@ && x.1 == lap_views(l@),
{
    let key = a.id.as_str();
    if key.as_bytes().len() as u64 >= DIGEST_INPUT_LIMIT {
        return Err(Error::MalformedSession);
    }
    let mut laps: Vec<Lap> = Vec::new();
    let mut i: usize = 0;
    while i < a.laps.len()
        invariant
            i <= a.laps@.len(),
            laps@.len() == i,
            forall|j: int| 0 <= j < i ==> (#[trigger] lap_of(a.laps@[j])) is Some,
            forall|j: int| 0 <= j < i ==> (#[trigger] laps@[j])@ == lap_of(a.laps@[j])->0,
        decreases a.laps@.len() - i,
    {
        match Lap::from(&a.laps[i]) {
            Err(e) => {
                return Err(e);
            },
            Ok(l) => {
                laps.push(l);
            },
        }
        i += 1;
    }
    assert(lap_views(laps@) =~= a.laps@.map_values(|l: tcx::Lap| lap_of(l)->0));
    assert(laps_of(a.laps@) == Some(lap_views(laps@)));
    match aggregate(&laps) {
        Err(e) => Err(e),
        Ok((average_heart_rate, total_distance)) => {
            let summary = Activity {
                sport: Sport::from_token(a.sport.as_str()),
                id: Id::new(key),
                average_heart_rate,
                total_distance,
            };
            Ok((summary, laps))
        },
    }
}

proof fn lemma_ids_push(activities: Seq<ActivityView>, a: ActivityView)
    ensures
        activity_ids(activities.push(a)) == activity_ids(activities).insert(a.id),
{
    let after = activities.push(a);
    assert forall|k: Seq<u8>| activity_ids(after).contains(k) implies activity_ids(
        activities,
    ).insert(a.id).contains(k) by {
        let i = choose|i: int| 0 <= i < after.len() && (#[trigger] after[i]).id == k;
        if i < activities.len() {
            assert(activities[i].id == k);
        }
    }
    assert forall|k: Seq<u8>| activity_ids(activities).insert(a.id).contains(k) implies activity_ids(
        after,
    ).contains(k) by {
        if k == a.id {
            assert(after[activities.len() as int].id == k);
        } else {
            let i = choose|i: int| 0 <= i < activities.len() && (#[trigger] activities[i]).id == k;
            assert(after[i].id == k);
        }
    }
    assert(activity_ids(after) =~= activity_ids(activities).insert(a.id));
}

proof fn lemma_ids_update(activities: Seq<ActivityView>, i: int, a: ActivityView)
    requires
        0 <= i < activities.len(),
        activities[i].id == a.id,
    ensures
        activity_ids(activities.update(i, a)) == activity_ids(activities),
{
    let after = activities.update(i, a);
    assert forall|k: Seq<u8>| activity_ids(after).contains(k) implies activity_ids(activities).contains(k) by {
        let j = choose|j: int| 0 <= j < after.len() && (#[trigger] after[j]).id == k;
        assert(activities[j].id == k);
    }
    assert forall|k: Seq<u8>| activity_ids(activities).contains(k) implies activity_ids(after).contains(k) by {
        let j = choose|j: int| 0 <= j < activities.len() && (#[trigger] activities[j]).id == k;
        assert(after[j].id == k);
    }
    assert(activity_ids(after) =~= activity_ids(activities));
}

/// Whether the identifiers that have laps are exactly those of the stored
/// summaries, and, when later summaries win, no two summaries share one.
pub open spec fn consistent(db: DatabaseView) -> bool {
    &&& db.laps.dom() == activity_ids(db.activities)
    &&& db.policy == DuplicatePolicy::LastWins ==> ids_unique(db.activities)
}

proof fn lemma_inserted_consistent(db: DatabaseView, activity: ActivityView, laps: Seq<LapView>)
    requires
        consistent(db),
    ensures
        consistent(inserted(db, activity, laps)),
{
    let acts = db.activities;
    let after = inserted(db, activity, laps);
    if db.policy == DuplicatePolicy::LastWins && activity_ids(acts).contains(activity.id) {
        let c = index_of(acts, activity.id);
        lemma_ids_update(acts, c, activity);
        assert(after.laps.dom() =~= db.laps.dom());
        assert forall|i: int, j: int| 0 <= i < j < after.activities.len() implies (
        #[trigger] after.activities[i]).id != (#[trigger] after.activities[j]).id by {
            assert(after.activities[i].id == acts[i].id);
            assert(after.activities[j].id == acts[j].id);
        }
    } else {
        lemma_ids_push(acts, activity);
        assert(after.laps.dom() =~= db.laps.dom().insert(activity.id));
        if db.policy == DuplicatePolicy::LastWins {
            assert forall|i: int, j: int| 0 <= i < j < after.activities.len() implies (
            #[trigger] after.activities[i]).id != (#[trigger] after.activities[j]).id by {
                if j == acts.len() {
                    assert(!activity_ids(acts).contains(activity.id));
                    assert(after.activities[i] == acts[i]);
                }
            }
        }
    }
}

/// Building keeps the laps and the summaries in step: after any activities
/// are inserted into a consistent database, the identifiers that have laps
/// are exactly those of the summaries, and, when later summaries win, no
/// identifier has two summaries. (When all summaries are kept, one
/// identifier may have several.)
pub proof fn lemma_build_consistent(db: DatabaseView, items: Seq<(ActivityView, Seq<LapView>)>)
    requires
        consistent(db),
    ensures
        consistent(inserted_all(db, items)),
    decreases items.len(),
{
    if items.len() > 0 {
        lemma_build_consistent(db, items.drop_last());
        lemma_inserted_consistent(inserted_all(db, items.drop_last()), items.last().0, items.last().1);
    }
}

/// A session with no laps, or with a lap without samples, never gets a
/// summary; when its key and laps are otherwise well formed, it fails with
/// `EmptyAggregationInput`.
pub proof fn lemma_empty_input_fails(a: tcx::Activity)
    requires
        laps_of(a.laps@) matches Some(laps) && has_empty_input(laps),
    ensures
        summary_of(a) is Err,
        encode_utf8(a.id@).len() < DIGEST_INPUT_LIMIT ==> summary_of(a) == Err::<
            (ActivityView, Seq<LapView>),
            Error,
        >(Error::EmptyAggregationInput),
{
}

/// A later activity whose identifier is already present replaces the laps
/// stored under it and adds no identifier. When all summaries are kept, its
/// summary is appended, so the identifier then has two; when later summaries
/// win, its summary takes the place of the earlier one, and the number of
/// summaries stays the same.
pub proof fn lemma_duplicate_insert(db: DatabaseView, activity: ActivityView, laps: Seq<LapView>)
    requires
        consistent(db),
        db.laps.contains_key(activity.id),
    ensures
        inserted(db, activity, laps).laps[activity.id] == laps,
        inserted(db, activity, laps).laps.dom() == db.laps.dom(),
        db.policy == DuplicatePolicy::KeepAll ==> inserted(db, activity, laps).activities
            == db.activities.push(activity),
        db.policy == DuplicatePolicy::LastWins ==> {
            let after = inserted(db, activity, laps).activities;
            &&& after.len() == db.activities.len()
            &&& exists|i: int| 0 <= i < after.len() && after[i] == activity
            &&& ids_unique(after)
        },
{
    let after = inserted(db, activity, laps);
    assert(after.laps.dom() =~= db.laps.dom());
    assert(activity_ids(db.activities).contains(activity.id));
    lemma_inserted_consistent(db, activity, laps);
    if db.policy == DuplicatePolicy::LastWins {
        let c = index_of(db.activities, activity.id);
        assert(after.activities[c] == activity);
    }
}

impl Database {
    /// Whether the stored laps and summaries agree with the view.
    pub closed spec fn well_formed(&self) -> bool {
        &&& consistent(self@)
        &&& self.index_matches_entries()
    }

    closed spec fn index_matches_entries(&self) -> bool {
        &&& forall|i: int, j: int|
            0 <= i < j < self.entries@.len() ==> (#[trigger] self.entries@[i]).id@ != (
            #[trigger] self.entries@[j]).id@
        &&& forall|i: int|
            0 <= i < self.entries@.len() ==> self.index@.contains_key(
                (#[trigger] self.entries@[i]).id@,
            ) && self.index@[self.entries@[i].id@] == lap_views(self.entries@[i].laps@)
        &&& forall|k: Seq<u8>|
            #[trigger] self.index@.contains_key(k) ==> exists|i: int|
                0 <= i < self.entries@.len() && (#[trigger] self.entries@[i]).id@ == k
    }

    /// An empty database.
    pub fn new(policy: DuplicatePolicy) -> (r: Database)
        ensures
            r.well_formed(),
            consistent(r@),
            r@.activities.len() == 0,
            r@.laps.is_empty(),
            r@.policy == policy,
    {
        let r = Database {
            activities: Vec::new(),
            entries: Vec::new(),
            policy,
            index: Ghost(Map::empty()),
        };
        assert(r@.activities =~= Seq::empty());
        assert(activity_ids(r@.activities) =~= Set::empty());
        assert(r.index@.dom() =~= Set::empty());
        r
    }

    /// Where the laps stored under `id` are, if anywhere.
    fn entry_position(&self, id: &Id) -> (r: Option<usize>)
        ensures
            r matches Some(i) ==> i < self.entries@.len() && self.entries@[i as int].id@ == id@,
            r is None ==> forall|i: int| 0 <= i < self.entries@.len() ==> (#[trigger] self.entries@[i]).id@ != id@,
    {
        let mut i: usize = 0;
        while i < self.entries.len()
            invariant
                i <= self.entries@.len(),
                forall|j: int| 0 <= j < i ==> (#[trigger] self.entries@[j]).id@ != id@,
            decreases self.entries@.len() - i,
        {
            if self.entries[i].id.same_as(id) {
                return Some(i);
            }
            i += 1;
        }
        None
    }

    /// Where the first summary with identifier `id` is, if anywhere.
    fn activity_position(&self, id: &Id) -> (r: Option<usize>)
        ensures
            r matches Some(i) ==> i < self.activities@.len() && self.activities@[i as int].id@ == id@,
            r is None ==> forall|i: int| 0 <= i < self.activities@.len() ==> (#[trigger] self.activities@[i]).id@ != id@,
    {
        let mut i: usize = 0;
        while i < self.activities.len()
            invariant
                i <= self.activities@.len(),
                forall|j: int| 0 <= j < i ==> (#[trigger] self.activities@[j]).id@ != id@,
            decreases self.activities@.len() - i,
        {
            if self.activities[i].id.same_as(id) {
                return Some(i);
            }
            i += 1;
        }
        None
    }

    /// Adds one activity's summary and laps together, as `inserted` says.
    pub fn insert(&mut self, activity: Activity, laps: Vec<Lap>)
        requires
            old(self).well_formed(),
        ensures
            final(self).well_formed(),
            consistent(final(self)@),
            final(self)@ == inserted(old(self)@, activity@, lap_views(laps@)),
    {
        let ghost before = self@;
        let ghost key = activity.id@;
        let ghost lv = lap_views(laps@);
        let ghost old_entries = self.entries@;
        let slot = self.entry_position(&activity.id);
        match slot {
            Some(i) => {
                self.entries.set(i, LapEntry { id: activity.id, laps });
            },
            None => {
                self.entries.push(LapEntry { id: activity.id, laps });
            },
        }
        self.index = Ghost(self.index@.insert(key, lv));
        let ghost acts = before.activities;
        let ghost old_acts = self.activities@;
        let position = if self.policy == DuplicatePolicy::LastWins {
            self.activity_position(&activity.id)
        } else {
            None
        };
        match position {
            Some(i) => {
                proof {
                    assert(acts[i as int].id == key);
                    assert(activity_ids(acts).contains(key));
                    let c = index_of(acts, key);
                    assert(c == i);
                }
                self.activities.set(i, activity);
                assert(self@.activities =~= acts.update(i as int, activity@));
                proof {
                    lemma_ids_update(acts, i as int, activity@);
                    assert(before.laps.dom().insert(key) =~= before.laps.dom());
                }
            },
            None => {
                if self.policy == DuplicatePolicy::LastWins {
                    assert forall|j: int| 0 <= j < acts.len() implies (#[trigger] acts[j]).id != key by {
                        assert(acts[j] == old_acts[j]@);
                    }
                }
                self.activities.push(activity);
                assert(self@.activities =~= acts.push(activity@));
                proof {
                    lemma_ids_push(acts, activity@);
                }
            },
        }
        assert(self.index@.dom() =~= before.laps.dom().insert(key));
        assert(self.index@.dom() =~= activity_ids(self@.activities));
        proof {
            assert forall|k: Seq<u8>| #[trigger] self.index@.contains_key(k) implies exists|i: int|
                0 <= i < self.entries@.len() && (#[trigger] self.entries@[i]).id@ == k by {
                if k != key {
                    let j = choose|j: int| 0 <= j < old_entries.len() && (#[trigger] old_entries[j]).id@ == k;
                    assert(self.entries@[j].id@ == k);
                } else {
                    match slot {
                        Some(i) => assert(self.entries@[i as int].id@ == k),
                        None => assert(self.entries@[old_entries.len() as int].id@ == k),
                    }
                }
            }
        }
    }

    /// Summarises every session of a decoded file, in file order, then adds
    /// them all; when one fails, nothing is added and its failure is returned.
    pub fn ingest(&mut self, file: TrainingCenterDatabase) -> (r: Result<(), Error>)
        requires
            old(self).well_formed(),
        ensures
            final(self).well_formed(),
            consistent(final(self)@),
            match summaries_of(activities_of(file)) {
                Err(e) => r == Err::<(), Error>(e) && final(self)@ == old(self)@,
                Ok(items) => r is Ok && final(self)@ == inserted_all(old(self)@, items),
            },
    {
        let sessions = read_activities(file);
        let n = sessions.len();
        let mut derived: Vec<(Activity, Vec<Lap>)> = Vec::new();
        let mut i: usize = 0;
        assert(sessions@.subrange(0, 0) =~= Seq::<tcx::Activity>::empty());
        assert(item_views(derived@) =~= Seq::empty());
        while i < n
            invariant
                n == sessions@.len(),
                sessions@ == activities_of(file),
                i <= n,
                self.well_formed(),
                self@ == old(self)@,
                summaries_of(sessions@.subrange(0, i as int)) == Ok::<
                    Seq<(ActivityView, Seq<LapView>)>,
                    Error,
                >(item_views(derived@)),
            decreases n - i,
        {
            let ghost prefix = sessions@.subrange(0, i + 1);
            assert(prefix.drop_last() =~= sessions@.subrange(0, i as int));
            match summarize(&sessions[i]) {
                Err(e) => {
                    proof {
                        assert(prefix.last() == sessions@[i as int]);
                        assert(summaries_of(prefix) == Err::<Seq<(ActivityView, Seq<LapView>)>, Error>(e));
                        lemma_summaries_prefix_failure(sessions@, i + 1);
                    }
                    return Err(e);
                },
                Ok(item) => {
                    let ghost earlier = derived@;
                    derived.push(item);
                    assert(item_views(derived@) =~= item_views(earlier).push(
                        (item.0@, lap_views(item.1@)),
                    ));
                },
            }
            i += 1;
        }
        assert(sessions@.subrange(0, n as int) =~= sessions@);
        let ghost start = self@;
        let ghost items = item_views(derived@);
        let m = derived.len();
        let mut k: usize = 0;
        while k < m
            invariant
                m == items.len(),
                k <= m,
                derived@.len() == m - k,
                self.well_formed(),
                item_views(derived@) == items.subrange(k as int, m as int),
                self@ == inserted_all(start, items.subrange(0, k as int)),
            decreases m - k,
        {
            let ghost waiting = derived@;
            let (activity, laps) = derived.remove(0);
            assert(item_views(waiting)[0] == items[k as int]);
            assert(items.subrange(0, k + 1).drop_last() =~= items.subrange(0, k as int));
            assert(items[k as int] == (activity@, lap_views(laps@)));
            assert forall|j: int| 0 <= j < derived@.len() implies #[trigger] item_views(derived@)[j]
                == items[k + 1 + j] by {
                assert(derived@[j] == waiting[j + 1]);
                assert(item_views(waiting)[j + 1] == items.subrange(k as int, m as int)[j + 1]);
            }
            assert(item_views(derived@) =~= items.subrange(k + 1, m as int));
            self.insert(activity, laps);
            k += 1;
        }
        assert(items.subrange(0, m as int) =~= items);
        Ok(())
    }

    /// The summaries of all activities, in insertion order.
    pub fn activities(&self) -> (r: &Vec<Activity>)
        ensures
            activity_views(r@) == self@.activities,
    {
        &self.activities
    }

    /// The laps stored under an identifier, if any.
    pub fn laps(&self, id: &Id) -> (r: Option<&Vec<Lap>>)
        requires
            self.well_formed(),
        ensures
            r is Some <==> self@.laps.contains_key(id@),
            r matches Some(l) ==> lap_views(l@) == self@.laps[id@],
    {
        match self.entry_position(id) {
            Some(i) => Some(&self.entries[i].laps),
            None => {
                assert(!self@.laps.contains_key(id@));
                None
            },
        }
    }

    /// The laps of the activity whose identifier has the given hexadecimal
    /// text. Text that is not an identifier gives `InvalidIdentifier`; an
    /// identifier with no activity gives `NotFound`.
    pub fn laps_by_hex(&self, text: &str) -> (r: Result<&Vec<Lap>, Error>)
        requires
            self.well_formed(),
        ensures
            r matches Err(e) && e == Error::InvalidIdentifier <==> !is_id_text(text@),
            r matches Err(e) && e == Error::NotFound <==> is_id_text(text@)
                && !self@.laps.contains_key(hex_bytes(text@)),
            r matches Err(e) ==> e == Error::InvalidIdentifier || e == Error::NotFound,
            r matches Ok(l) ==> lap_views(l@) == self@.laps[hex_bytes(text@)],
    {
        let id = Id::from(text)?;
        match self.laps(&id) {
            Some(l) => Ok(l),
            None => Err(Error::NotFound),
        }
    }
}

} // verus!
