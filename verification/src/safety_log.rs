//! Cumulative run incident accounting.
//!
//! Audits arrive as [`SafetyObservation`]s (one per audited simulation step or
//! GPU readback). The log turns the per-step counters into incident
//! episodes: a pair that stays in contact is counted once, a new episode is
//! counted again, and a repeated readback of the same audit is ignored.
//! What a record carries besides its identity and counts (times, position,
//! clearance) is the caller's payload `D`.

use vstd::prelude::*;
use vstd::std_specs::cmp::PartialEqSpec;

verus! {

/// What kind of incident a record describes.
#[derive(Clone, Copy, Debug, PartialEq, Eq, Structural)]
pub enum CollisionKind {
    DroneToDrone,
    GroundContact,
}

impl CollisionKind {
    pub open spec fn label_text(self) -> Seq<char> {
        match self {
            CollisionKind::DroneToDrone => "DRONE COLLISION"@,
            CollisionKind::GroundContact => "GROUND CONTACT"@,
        }
    }

    pub fn label(self) -> (r: &'static str)
        ensures
            r@ == self.label_text(),
    {
        match self {
            CollisionKind::DroneToDrone => "DRONE COLLISION",
            CollisionKind::GroundContact => "GROUND CONTACT",
        }
    }
}

/// One logged incident episode.
pub struct CollisionRecord<D> {
    /// Position of the record in the run, starting at 1.
    pub id: u64,
    pub kind: CollisionKind,
    /// Number of newly occurring incidents this record stands for.
    pub count: u32,
    pub drone_a: Option<u32>,
    pub drone_b: Option<u32>,
    /// Run time, show time, position and measured clearance of the incident.
    pub detail: D,
}

/// One safety audit as delivered by the CPU simulation or a GPU readback.
pub struct SafetyObservation<D> {
    pub audit_sequence: u64,
    pub collision_pairs: u32,
    pub ground_breaches: u32,
    pub collision_pair: Option<(u32, u32)>,
    pub ground_drone: Option<u32>,
    /// Payload of a drone-to-drone record made from this audit.
    pub air_detail: D,
    /// Payload of a ground-contact record made from this audit.
    pub ground_detail: D,
}

/// Records retained before the oldest one is dropped.
pub const MAX_RECORDS: usize = 100_000;

/// The run-level incident log.
pub struct RunCollisionLog<D> {
    records: Vec<CollisionRecord<D>>,
    cumulative_drone_collisions: u64,
    cumulative_ground_contacts: u64,
    last_audit_sequence: Option<u64>,
    previous_collision_pairs: u32,
    previous_ground_breaches: u32,
    previous_collision_pair: Option<(u32, u32)>,
    previous_ground_drone: Option<u32>,
    next_id: u64,
    dropped_records: u64,
    appended: Ghost<Seq<CollisionRecord<D>>>,
}

/// Abstract state of a [`RunCollisionLog`].
pub struct CollisionLogView<D> {
    pub records: Seq<CollisionRecord<D>>,
    pub cumulative_drone_collisions: u64,
    pub cumulative_ground_contacts: u64,
    pub last_audit_sequence: Option<u64>,
    pub previous_collision_pairs: u32,
    pub previous_ground_breaches: u32,
    pub previous_collision_pair: Option<(u32, u32)>,
    pub previous_ground_drone: Option<u32>,
    pub next_id: u64,
    pub dropped_records: u64,
    /// Every record appended since the log was created or cleared, the
    /// dropped ones included.
    pub appended: Seq<CollisionRecord<D>>,
}

impl<D> View for RunCollisionLog<D> {
    type V = CollisionLogView<D>;

    closed spec fn view(&self) -> CollisionLogView<D> {
        CollisionLogView {
            records: self.records@,
            cumulative_drone_collisions: self.cumulative_drone_collisions,
            cumulative_ground_contacts: self.cumulative_ground_contacts,
            last_audit_sequence: self.last_audit_sequence,
            previous_collision_pairs: self.previous_collision_pairs,
            previous_ground_breaches: self.previous_ground_breaches,
            previous_collision_pair: self.previous_collision_pair,
            previous_ground_drone: self.previous_ground_drone,
            next_id: self.next_id,
            dropped_records: self.dropped_records,
            appended: self.appended@,
        }
    }
}

/// Number of new incidents in an audit, given the previous audit's count and
/// whether the representative (closest pair or lowest drone) changed.
pub open spec fn rising_count(previous_count: u32, current_count: u32, representative_changed: bool) -> u32 {
    if current_count == 0 {
        0
    } else if previous_count == 0 {
        current_count
    } else if current_count > previous_count {
        (current_count - previous_count) as u32
    } else if representative_changed {
        1
    } else {
        0
    }
}

/// A representative is reported and differs from the previous one.
pub open spec fn representative_changed<T>(previous: Option<T>, current: Option<T>) -> bool {
    current is Some && current != previous
}

/// The empty log.
pub open spec fn empty_log<D>() -> CollisionLogView<D> {
    CollisionLogView {
        records: Seq::empty(),
        cumulative_drone_collisions: 0,
        cumulative_ground_contacts: 0,
        last_audit_sequence: None,
        previous_collision_pairs: 0,
        previous_ground_breaches: 0,
        previous_collision_pair: None,
        previous_ground_drone: None,
        next_id: 0,
        dropped_records: 0,
        appended: Seq::empty(),
    }
}

/// Sum of the counts of the records of kind `kind`.
pub open spec fn kind_total<D>(records: Seq<CollisionRecord<D>>, kind: CollisionKind) -> int
    decreases records.len(),
{
    if records.len() == 0 {
        0
    } else {
        kind_total(records.drop_last(), kind) + if records.last().kind == kind { records.last().count as int } else { 0 }
    }
}

/// Appends a record under the next id, dropping the oldest when full.
pub open spec fn push_record<D>(v: CollisionLogView<D>, record: CollisionRecord<D>) -> CollisionLogView<D> {
    let id = (v.next_id + 1) as u64;
    let stored = CollisionRecord { id, ..record };
    if v.records.len() == MAX_RECORDS {
        CollisionLogView {
            records: v.records.drop_first().push(stored),
            next_id: id,
            dropped_records: (v.dropped_records + 1) as u64,
            appended: v.appended.push(stored),
            ..v
        }
    } else {
        CollisionLogView { records: v.records.push(stored), next_id: id, appended: v.appended.push(stored), ..v }
    }
}

/// The log after one audit.
pub open spec fn observe_step<D>(v: CollisionLogView<D>, o: SafetyObservation<D>) -> CollisionLogView<D> {
    if v.last_audit_sequence == Some(o.audit_sequence) {
        v
    } else {
        let restarted = v.last_audit_sequence is Some && o.audit_sequence < v.last_audit_sequence->0;
        let previous_pairs = if restarted { 0 } else { v.previous_collision_pairs };
        let previous_ground = if restarted { 0 } else { v.previous_ground_breaches };
        let previous_pair = if restarted { None } else { v.previous_collision_pair };
        let previous_drone = if restarted { None } else { v.previous_ground_drone };
        let new_collisions = rising_count(
            previous_pairs,
            o.collision_pairs,
            representative_changed(previous_pair, o.collision_pair),
        );
        let v1 = if new_collisions > 0 {
            push_record(
                CollisionLogView {
                    cumulative_drone_collisions: (v.cumulative_drone_collisions + new_collisions) as u64,
                    ..v
                },
                CollisionRecord {
                    id: v.next_id,
                    kind: CollisionKind::DroneToDrone,
                    count: new_collisions,
                    drone_a: match o.collision_pair { Some(p) => Some(p.0), None => None },
                    drone_b: match o.collision_pair { Some(p) => Some(p.1), None => None },
                    detail: o.air_detail,
                },
            )
        } else {
            v
        };
        let new_ground = rising_count(
            previous_ground,
            o.ground_breaches,
            representative_changed(previous_drone, o.ground_drone),
        );
        let v2 = if new_ground > 0 {
            push_record(
                CollisionLogView {
                    cumulative_ground_contacts: (v1.cumulative_ground_contacts + new_ground) as u64,
                    ..v1
                },
                CollisionRecord {
                    id: v1.next_id,
                    kind: CollisionKind::GroundContact,
                    count: new_ground,
                    drone_a: o.ground_drone,
                    drone_b: None,
                    detail: o.ground_detail,
                },
            )
        } else {
            v1
        };
        CollisionLogView {
            last_audit_sequence: Some(o.audit_sequence),
            previous_collision_pairs: o.collision_pairs,
            previous_ground_breaches: o.ground_breaches,
            previous_collision_pair: o.collision_pair,
            previous_ground_drone: o.ground_drone,
            ..v2
        }
    }
}

/// Counters can take one more audit without overflowing.
pub open spec fn has_headroom_spec<D>(v: CollisionLogView<D>) -> bool {
    &&& v.next_id + 2 <= u64::MAX
    &&& v.cumulative_drone_collisions + u32::MAX <= u64::MAX
    &&& v.cumulative_ground_contacts + u32::MAX <= u64::MAX
}

/// Internal consistency of a log: bounded retention, retained records are
/// the latest appended ones and carry the consecutive ids that follow the
/// dropped ones, and each cumulative counter is the total count of the
/// records of its kind ever appended.
pub open spec fn log_wf<D>(v: CollisionLogView<D>) -> bool {
    &&& log_shape(v)
    &&& v.cumulative_drone_collisions == kind_total(v.appended, CollisionKind::DroneToDrone)
    &&& v.cumulative_ground_contacts == kind_total(v.appended, CollisionKind::GroundContact)
}

/// The retention and id clauses of [`log_wf`].
pub open spec fn log_shape<D>(v: CollisionLogView<D>) -> bool {
    &&& v.records.len() <= MAX_RECORDS
    &&& v.records.len() + v.dropped_records == v.next_id
    &&& forall|i: int| 0 <= i < v.records.len() ==> #[trigger] v.records[i].id == v.dropped_records + i + 1
    &&& v.appended.len() == v.next_id
    &&& v.records == v.appended.skip(v.dropped_records as int)
}

/// The counters already include `record`, which is about to be appended.
pub open spec fn counted_ahead<D>(v: CollisionLogView<D>, record: CollisionRecord<D>) -> bool {
    &&& v.cumulative_drone_collisions == kind_total(v.appended, CollisionKind::DroneToDrone) + if record.kind
        == CollisionKind::DroneToDrone { record.count as int } else { 0 }
    &&& v.cumulative_ground_contacts == kind_total(v.appended, CollisionKind::GroundContact) + if record.kind
        == CollisionKind::GroundContact { record.count as int } else { 0 }
}

impl<D> RunCollisionLog<D> {
    pub open spec fn wf(&self) -> bool {
        log_wf(self@)
    }

    /// An empty log.
    pub fn new() -> (r: Self)
        ensures
            r@ == empty_log::<D>(),
            r.wf(),
    {
        proof {
            assert(Seq::<CollisionRecord<D>>::empty().skip(0) =~= Seq::<CollisionRecord<D>>::empty());
        }
        RunCollisionLog {
            records: Vec::new(),
            cumulative_drone_collisions: 0,
            cumulative_ground_contacts: 0,
            last_audit_sequence: None,
            previous_collision_pairs: 0,
            previous_ground_breaches: 0,
            previous_collision_pair: None,
            previous_ground_drone: None,
            next_id: 0,
            dropped_records: 0,
            appended: Ghost(Seq::empty()),
        }
    }

    pub fn records(&self) -> (r: &[CollisionRecord<D>])
        ensures
            r@ == self@.records,
    {
        self.records.as_slice()
    }

    pub fn cumulative_drone_collisions(&self) -> (r: u64)
        ensures
            r == self@.cumulative_drone_collisions,
    {
        self.cumulative_drone_collisions
    }

    pub fn cumulative_ground_contacts(&self) -> (r: u64)
        ensures
            r == self@.cumulative_ground_contacts,
    {
        self.cumulative_ground_contacts
    }

    pub fn dropped_records(&self) -> (r: u64)
        ensures
            r == self@.dropped_records,
    {
        self.dropped_records
    }

    /// Whether [`observe`](Self::observe) can take another audit without
    /// a counter overflowing.
    pub fn has_headroom(&self) -> (r: bool)
        ensures
            r == has_headroom_spec(self@),
    {
        self.next_id <= u64::MAX - 2
            && self.cumulative_drone_collisions <= u64::MAX - (u32::MAX as u64)
            && self.cumulative_ground_contacts <= u64::MAX - (u32::MAX as u64)
    }

    /// Forgets the whole run.
    pub fn clear(&mut self)
        ensures
            final(self)@ == empty_log::<D>(),
            final(self).wf(),
    {
        *self = Self::new();
    }

    fn push(&mut self, record: CollisionRecord<D>)
        requires
            log_shape(old(self)@),
            counted_ahead(old(self)@, record),
            old(self)@.next_id + 1 <= u64::MAX,
        ensures
            final(self)@ == push_record(old(self)@, record),
            final(self).wf(),
    {
        let ghost v = self@;
        self.next_id = self.next_id + 1;
        let mut record = record;
        record.id = self.next_id;
        if self.records.len() == MAX_RECORDS {
            self.records.remove(0);
            self.dropped_records = self.dropped_records + 1;
        }
        let ghost kept = record;
        self.records.push(record);
        self.appended = Ghost(self.appended@.push(kept));
        proof {
            let stored = CollisionRecord { id: (v.next_id + 1) as u64, ..kept };
            assert(kept == stored);
            lemma_push_keeps_log_consistent(v, record);
            if v.records.len() == MAX_RECORDS {
                assert(self.records@ =~= v.records.drop_first().push(stored));
            } else {
                assert(self.records@ =~= v.records.push(stored));
            }
        }
    }

    /// Takes one audit into the log.
    pub fn observe(&mut self, observation: SafetyObservation<D>)
        requires
            old(self).wf(),
            has_headroom_spec(old(self)@),
        ensures
            final(self)@ == observe_step(old(self)@, observation),
            final(self).wf(),
    {
        let ghost v = self@;
        let ghost o = observation;
        if self.last_audit_sequence == Some(observation.audit_sequence) {
            return;
        }
        let restarted = match self.last_audit_sequence {
            Some(last) => observation.audit_sequence < last,
            None => false,
        };
        if restarted {
            self.previous_collision_pairs = 0;
            self.previous_ground_breaches = 0;
            self.previous_collision_pair = None;
            self.previous_ground_drone = None;
        }
        self.last_audit_sequence = Some(observation.audit_sequence);

        let new_collisions = rising_incident_count(
            self.previous_collision_pairs,
            observation.collision_pairs,
            self.previous_collision_pair,
            observation.collision_pair,
        );
        let ghost v_mid = self@;
        if new_collisions > 0 {
            self.cumulative_drone_collisions = self.cumulative_drone_collisions + new_collisions as u64;
            let (drone_a, drone_b) = match observation.collision_pair {
                Some(pair) => (Some(pair.0), Some(pair.1)),
                None => (None, None),
            };
            self.push(CollisionRecord {
                id: self.next_id,
                kind: CollisionKind::DroneToDrone,
                count: new_collisions,
                drone_a,
                drone_b,
                detail: observation.air_detail,
            });
        }
        let new_ground_contacts = rising_incident_count(
            self.previous_ground_breaches,
            observation.ground_breaches,
            self.previous_ground_drone,
            observation.ground_drone,
        );
        if new_ground_contacts > 0 {
            self.cumulative_ground_contacts = self.cumulative_ground_contacts + new_ground_contacts as u64;
            self.push(CollisionRecord {
                id: self.next_id,
                kind: CollisionKind::GroundContact,
                count: new_ground_contacts,
                drone_a: observation.ground_drone,
                drone_b: None,
                detail: observation.ground_detail,
            });
        }
        self.previous_collision_pairs = observation.collision_pairs;
        self.previous_ground_breaches = observation.ground_breaches;
        self.previous_collision_pair = observation.collision_pair;
        self.previous_ground_drone = observation.ground_drone;
    }
}

impl<D> Default for RunCollisionLog<D> {
    fn default() -> (r: Self)
        ensures
            r@ == empty_log::<D>(),
            r.wf(),
    {
        Self::new()
    }
}

/// A second delivery of the same audit (a duplicate asynchronous readback)
/// leaves the log exactly as the first delivery left it.
pub proof fn lemma_repeated_audit_is_ignored<D>(v: CollisionLogView<D>, o: SafetyObservation<D>)
    ensures
        observe_step(observe_step(v, o), o) == observe_step(v, o),
{
}

/// A collision episode that persists into later audits, with the same
/// representative pair and no growth in its pair count, is counted once.
pub proof fn lemma_persisting_episode_counted_once<D>(
    v: CollisionLogView<D>,
    first: SafetyObservation<D>,
    later: SafetyObservation<D>,
)
    requires
        v.last_audit_sequence != Some(first.audit_sequence),
        first.audit_sequence < later.audit_sequence,
        later.collision_pairs <= first.collision_pairs,
        later.collision_pair == first.collision_pair,
    ensures
        observe_step(observe_step(v, first), later).cumulative_drone_collisions
            == observe_step(v, first).cumulative_drone_collisions,
        observe_step(observe_step(v, first), later).records.len() >= observe_step(v, first).records.len(),
{
}

/// Once an audit reports no collision, the next collision starts a new
/// episode and every one of its pairs is counted.
pub proof fn lemma_new_episode_is_counted<D>(
    v: CollisionLogView<D>,
    clear: SafetyObservation<D>,
    later: SafetyObservation<D>,
)
    requires
        v.last_audit_sequence != Some(clear.audit_sequence),
        clear.collision_pairs == 0,
        clear.audit_sequence < later.audit_sequence,
        has_headroom_spec(observe_step(v, clear)),
    ensures
        observe_step(observe_step(v, clear), later).cumulative_drone_collisions
            == observe_step(v, clear).cumulative_drone_collisions + later.collision_pairs,
{
}

/// An audit whose sequence number lies before the previous one (the audit
/// restarted after a timeline seek) ends any active episode: its incidents
/// are counted as new.
pub proof fn lemma_restarted_audit_starts_new_episodes<D>(v: CollisionLogView<D>, o: SafetyObservation<D>)
    requires
        v.last_audit_sequence is Some,
        o.audit_sequence < v.last_audit_sequence->0,
        has_headroom_spec(v),
    ensures
        observe_step(v, o).cumulative_drone_collisions == v.cumulative_drone_collisions + o.collision_pairs,
        observe_step(v, o).cumulative_ground_contacts == v.cumulative_ground_contacts + o.ground_breaches,
{
}

/// Cumulative counters never decrease, and a well-formed log stays
/// well-formed: at most `MAX_RECORDS` records, with consecutive ids that
/// continue after the dropped ones.
pub proof fn lemma_observe_keeps_log_consistent<D>(v: CollisionLogView<D>, o: SafetyObservation<D>)
    requires
        log_wf(v),
        has_headroom_spec(v),
    ensures
        log_wf(observe_step(v, o)),
        observe_step(v, o).cumulative_drone_collisions >= v.cumulative_drone_collisions,
        observe_step(v, o).cumulative_ground_contacts >= v.cumulative_ground_contacts,
        observe_step(v, o).dropped_records >= v.dropped_records,
{
    if v.last_audit_sequence != Some(o.audit_sequence) {
        let restarted = v.last_audit_sequence is Some && o.audit_sequence < v.last_audit_sequence->0;
        let previous_pairs = if restarted { 0 } else { v.previous_collision_pairs };
        let previous_ground = if restarted { 0 } else { v.previous_ground_breaches };
        let previous_pair = if restarted { None } else { v.previous_collision_pair };
        let previous_drone = if restarted { None } else { v.previous_ground_drone };
        let new_collisions = rising_count(
            previous_pairs,
            o.collision_pairs,
            representative_changed(previous_pair, o.collision_pair),
        );
        let v1 = if new_collisions > 0 {
            let ahead = CollisionLogView {
                cumulative_drone_collisions: (v.cumulative_drone_collisions + new_collisions) as u64,
                ..v
            };
            let record = CollisionRecord {
                id: v.next_id,
                kind: CollisionKind::DroneToDrone,
                count: new_collisions,
                drone_a: match o.collision_pair { Some(p) => Some(p.0), None => None },
                drone_b: match o.collision_pair { Some(p) => Some(p.1), None => None },
                detail: o.air_detail,
            };
            lemma_push_keeps_log_consistent(ahead, record);
            push_record(ahead, record)
        } else {
            v
        };
        let new_ground = rising_count(
            previous_ground,
            o.ground_breaches,
            representative_changed(previous_drone, o.ground_drone),
        );
        if new_ground > 0 {
            let ahead = CollisionLogView {
                cumulative_ground_contacts: (v1.cumulative_ground_contacts + new_ground) as u64,
                ..v1
            };
            let record = CollisionRecord {
                id: v1.next_id,
                kind: CollisionKind::GroundContact,
                count: new_ground,
                drone_a: o.ground_drone,
                drone_b: None,
                detail: o.ground_detail,
            };
            lemma_push_keeps_log_consistent(ahead, record);
        }
    }
}

/// Appending keeps a log consistent.
proof fn lemma_push_keeps_log_consistent<D>(v: CollisionLogView<D>, record: CollisionRecord<D>)
    requires
        log_shape(v),
        counted_ahead(v, record),
        v.next_id + 1 <= u64::MAX,
    ensures
        log_wf(push_record(v, record)),
        push_record(v, record).next_id == v.next_id + 1,
        push_record(v, record).dropped_records >= v.dropped_records,
{
    let w = push_record(v, record);
    let stored = CollisionRecord { id: (v.next_id + 1) as u64, ..record };
    assert(w.appended.drop_last() =~= v.appended);
    assert(w.appended.last() == stored);
    assert forall|i: int| 0 <= i < w.records.len() implies #[trigger] w.records[i].id == w.dropped_records + i + 1 by {
        if v.records.len() == MAX_RECORDS {
            if i < w.records.len() - 1 {
                assert(w.records[i] == v.records[i + 1]);
            }
        } else {
            if i < v.records.len() {
                assert(w.records[i] == v.records[i]);
            }
        }
    }
    if v.records.len() == MAX_RECORDS {
        assert(w.records =~= w.appended.skip(w.dropped_records as int));
    } else {
        assert(w.records =~= w.appended.skip(w.dropped_records as int));
    }
}

/// The run-wide accounting of a log built by `new`, `clear` and `observe`
/// (each keeps it well-formed): each cumulative counter is the total count
/// of the records of its kind ever appended, the retained records are the
/// latest appended ones (at most `MAX_RECORDS`), the dropped ones make up
/// the rest, and ids increase by one along the retained records.
pub proof fn lemma_counters_total_every_appended_record<D>(v: CollisionLogView<D>)
    requires
        log_wf(v),
    ensures
        v.cumulative_drone_collisions == kind_total(v.appended, CollisionKind::DroneToDrone),
        v.cumulative_ground_contacts == kind_total(v.appended, CollisionKind::GroundContact),
        v.records.len() <= MAX_RECORDS,
        v.records.len() + v.dropped_records == v.appended.len(),
        v.records == v.appended.skip(v.dropped_records as int),
        forall|i: int, j: int| 0 <= i < j < v.records.len() ==> v.records[i].id < v.records[j].id,
{
    assert forall|i: int, j: int| 0 <= i < j < v.records.len() implies v.records[i].id < v.records[j].id by {
        assert(v.records[i].id == v.dropped_records + i + 1);
        assert(v.records[j].id == v.dropped_records + j + 1);
    }
}

/// A representative is reported and differs, by `==` of its type, from the
/// previous one.
pub open spec fn representative_differs<T: PartialEqSpec>(previous: Option<T>, current: Option<T>) -> bool {
    match (current, previous) {
        (Some(c), Some(p)) => !c.eq_spec(&p),
        (Some(_), None) => true,
        (None, _) => false,
    }
}

/// Number of newly occurring incidents in an audit: the full count when an
/// episode starts, the increase while it grows, one when the representative
/// changes without the count growing, and nothing for a persisting episode.
pub fn rising_incident_count<T: Copy + Eq + PartialEqSpec>(
    previous_count: u32,
    current_count: u32,
    previous_representative: Option<T>,
    current_representative: Option<T>,
) -> (r: u32)
    requires
        T::obeys_eq_spec(),
    ensures
        r == rising_count(
            previous_count,
            current_count,
            representative_differs(previous_representative, current_representative),
        ),
        r <= current_count,
        current_count == 0 ==> r == 0,
{
    if current_count == 0 {
        0
    } else if previous_count == 0 {
        current_count
    } else if current_count > previous_count {
        current_count - previous_count
    } else {
        let changed = match (current_representative, previous_representative) {
            (Some(current), Some(previous)) => current != previous,
            (Some(_), None) => true,
            (None, _) => false,
        };
        if changed {
            1
        } else {
            0
        }
    }
}

} // verus!
