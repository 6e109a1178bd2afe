//! The show timeline: launch, hold, morph, animation, colour, camera and
//! landing cues laid end to end.
//!
//! Times and durations are whole microseconds.

use vstd::prelude::*;
use crate::model::FormationKind;

verus! {

/// What a cue does with the fleet.
#[derive(Clone, Copy, Debug, PartialEq, Eq, Structural)]
pub enum CueKind {
    Launch { target: FormationKind },
    Hold { formation: FormationKind },
    Transition { target: FormationKind },
    FormationAnimation { formation: FormationKind },
    ImageAnimation { formation: FormationKind },
    ColorWave { formation: FormationKind },
    CameraCue { formation: FormationKind },
    Landing,
}

impl CueKind {
    pub open spec fn label_text(self) -> Seq<char> {
        match self {
            CueKind::Launch { .. } => "LAUNCH"@,
            CueKind::Hold { .. } => "HOLD"@,
            CueKind::Transition { .. } => "MORPH"@,
            CueKind::FormationAnimation { .. } => "ANIMATE"@,
            CueKind::ImageAnimation { .. } => "PLAY GIF"@,
            CueKind::ColorWave { .. } => "COLOUR"@,
            CueKind::CameraCue { .. } => "CAMERA"@,
            CueKind::Landing => "LAND"@,
        }
    }

    pub fn label(&self) -> (r: &'static str)
        ensures
            r@ == self.label_text(),
    {
        match self {
            CueKind::Launch { .. } => "LAUNCH",
            CueKind::Hold { .. } => "HOLD",
            CueKind::Transition { .. } => "MORPH",
            CueKind::FormationAnimation { .. } => "ANIMATE",
            CueKind::ImageAnimation { .. } => "PLAY GIF",
            CueKind::ColorWave { .. } => "COLOUR",
            CueKind::CameraCue { .. } => "CAMERA",
            CueKind::Landing => "LAND",
        }
    }

    /// The formation a cue flies to or shows; landing has none.
    pub open spec fn formation_spec(self) -> Option<FormationKind> {
        match self {
            CueKind::Launch { target } => Some(target),
            CueKind::Transition { target } => Some(target),
            CueKind::Hold { formation } => Some(formation),
            CueKind::FormationAnimation { formation } => Some(formation),
            CueKind::ImageAnimation { formation } => Some(formation),
            CueKind::ColorWave { formation } => Some(formation),
            CueKind::CameraCue { formation } => Some(formation),
            CueKind::Landing => None,
        }
    }

    pub fn formation(&self) -> (r: Option<FormationKind>)
        ensures
            r == self.formation_spec(),
    {
        match *self {
            CueKind::Launch { target } | CueKind::Transition { target } | CueKind::Hold {
                formation: target,
            }
            | CueKind::FormationAnimation { formation: target } | CueKind::ImageAnimation {
                formation: target,
            }
            | CueKind::ColorWave { formation: target } | CueKind::CameraCue {
                formation: target,
            } => Some(target),
            CueKind::Landing => None,
        }
    }
}

impl CueKind {
    /// The formation the fleet flies toward during a cue of this kind: the
    /// launch grid while landing, the cue's own formation otherwise.
    pub open spec fn target_spec(self) -> FormationKind {
        match self.formation_spec() {
            Some(f) => f,
            None => FormationKind::LaunchGrid,
        }
    }

    pub fn target_formation(&self) -> (r: FormationKind)
        ensures
            r == self.target_spec(),
            self is Landing ==> r == FormationKind::LaunchGrid,
    {
        match self.formation() {
            Some(formation) => formation,
            None => FormationKind::LaunchGrid,
        }
    }

    /// Launch, morph and landing cues fly the fleet to a new formation, so
    /// drones are assigned fresh slots when such a cue starts.
    pub open spec fn reassigns_spec(self) -> bool {
        self is Launch || self is Transition || self is Landing
    }

    pub fn reassigns_slots(&self) -> (r: bool)
        ensures
            r == self.reassigns_spec(),
    {
        match self {
            CueKind::Launch { .. } | CueKind::Transition { .. } | CueKind::Landing => true,
            _ => false,
        }
    }
}

/// Holding, animating, recolouring or filming a formation, and playing an
/// animated image, keep every drone in its slot: only launch, morph and
/// landing cues reassign slots, and landing always returns the fleet to the
/// launch grid.
pub proof fn lemma_only_flights_reassign_slots(kind: CueKind)
    ensures
        kind is Hold || kind is FormationAnimation || kind is ImageAnimation || kind is ColorWave
            || kind is CameraCue ==> !kind.reassigns_spec(),
        kind is Landing ==> kind.reassigns_spec() && kind.target_spec() == FormationKind::LaunchGrid,
        !(kind is Landing) ==> kind.formation_spec() == Some(kind.target_spec()),
        kind.formation_spec() is None <==> kind is Landing,
{
}

/// Each kind of cue has a label of its own on the timeline strip, whatever
/// formation the cue carries.
pub proof fn lemma_cue_labels_distinct(a: CueKind, b: CueKind)
    ensures
        a.label_text() == b.label_text() ==> {
            &&& (a is Launch <==> b is Launch)
            &&& (a is Hold <==> b is Hold)
            &&& (a is Transition <==> b is Transition)
            &&& (a is FormationAnimation <==> b is FormationAnimation)
            &&& (a is ImageAnimation <==> b is ImageAnimation)
            &&& (a is ColorWave <==> b is ColorWave)
            &&& (a is CameraCue <==> b is CameraCue)
            &&& (a is Landing <==> b is Landing)
        },
{
    reveal_strlit("LAUNCH");
    reveal_strlit("HOLD");
    reveal_strlit("MORPH");
    reveal_strlit("ANIMATE");
    reveal_strlit("PLAY GIF");
    reveal_strlit("COLOUR");
    reveal_strlit("CAMERA");
    reveal_strlit("LAND");
    if a.label_text() == b.label_text() {
        assert(a.label_text().len() == b.label_text().len());
        assert(a.label_text()[0] == b.label_text()[0]);
        assert(a.label_text()[1] == b.label_text()[1]);
    }
}

/// One named cue of the timeline.
#[derive(Debug, PartialEq)]
pub struct TimelineCue {
    pub name: String,
    /// Length of the cue in microseconds.
    pub duration_us: u64,
    pub kind: CueKind,
}

impl Clone for TimelineCue {
    fn clone(&self) -> (r: Self)
        ensures
            r == *self,
    {
        TimelineCue { name: self.name.clone(), duration_us: self.duration_us, kind: self.kind }
    }
}

/// The cues of a show, played in order.
#[derive(Debug, PartialEq)]
pub struct ShowTimeline {
    pub cues: Vec<TimelineCue>,
}

/// Where a show time falls on the timeline.
#[derive(Clone, Copy, Debug, PartialEq, Eq)]
pub struct CueSample {
    /// Index of the active cue.
    pub index: usize,
    /// Time since the start of the active cue, in microseconds.
    pub local_time_us: u64,
    /// Played length of the active cue (its duration, at least
    /// `MIN_CUE_DURATION_US`), in microseconds.
    pub cue_duration_us: u64,
    /// The most recent formation of an earlier cue (the launch grid if none).
    pub previous_formation: FormationKind,
}

/// A cue plays for at least one hundredth of a second.
pub const MIN_CUE_DURATION_US: u64 = 10_000;

pub const SECOND_US: u64 = 1_000_000;

/// Played length of a cue of the given duration.
pub open spec fn played(duration_us: u64) -> int {
    if duration_us < MIN_CUE_DURATION_US { MIN_CUE_DURATION_US as int } else { duration_us as int }
}

/// Total played length of the first `n` cues.
pub open spec fn played_prefix(cues: Seq<TimelineCue>, n: int) -> int
    decreases n,
{
    if n <= 0 {
        0
    } else {
        played_prefix(cues, n - 1) + played(cues[n - 1].duration_us)
    }
}

/// Total nominal length of the first `n` cues.
pub open spec fn nominal_prefix(cues: Seq<TimelineCue>, n: int) -> int
    decreases n,
{
    if n <= 0 {
        0
    } else {
        nominal_prefix(cues, n - 1) + cues[n - 1].duration_us
    }
}

/// A time clipped to the largest representable one.
pub open spec fn saturate(x: int) -> u64 {
    if x > u64::MAX { u64::MAX } else { x as u64 }
}

/// Played length of a whole cue list.
pub open spec fn played_total(cues: Seq<TimelineCue>) -> int {
    played_prefix(cues, cues.len() as int)
}

/// The formation of the last cue before `index` that has one, or the
/// launch grid.
pub open spec fn previous_formation_before(cues: Seq<TimelineCue>, index: int) -> FormationKind
    decreases index,
{
    if index <= 0 {
        FormationKind::LaunchGrid
    } else {
        match cues[index - 1].kind.formation_spec() {
            Some(f) => f,
            None => previous_formation_before(cues, index - 1),
        }
    }
}

/// End time of cue `i` on the (saturated) playback clock.
pub open spec fn cue_end(cues: Seq<TimelineCue>, i: int) -> u64 {
    saturate(played_prefix(cues, i + 1))
}

/// `i` is the cue that plays at the clipped time `t`: it has started, and it
/// is the first cue that has not ended, or the last cue.
pub open spec fn is_active_cue(cues: Seq<TimelineCue>, t: u64, i: int) -> bool {
    &&& 0 <= i < cues.len()
    &&& saturate(played_prefix(cues, i)) <= t
    &&& (t < cue_end(cues, i) || i == cues.len() - 1)
    &&& forall|j: int| 0 <= j < i ==> !(t < #[trigger] cue_end(cues, j))
}

/// A show time clipped to the played length of the show.
pub open spec fn clip_time(cues: Seq<TimelineCue>, time_us: u64) -> u64 {
    let total = saturate(played_total(cues));
    if time_us < total { time_us } else { total }
}

/// Where `move_cue(from, offset)` puts cue `from`: `from + offset`, kept
/// within the timeline.
pub open spec fn move_target(len: int, from: int, offset: int) -> int {
    if from + offset < 0 {
        0
    } else if from + offset > len - 1 {
        len - 1
    } else {
        from + offset
    }
}

/// The cue list after moving cue `from` by `offset` places; unchanged when
/// `from` is past the end or the cue would not move.
pub open spec fn moved_cues(cues: Seq<TimelineCue>, from: int, offset: int) -> Seq<TimelineCue> {
    let to = move_target(cues.len() as int, from, offset);
    if cues.len() == 0 || from >= cues.len() || from == to {
        cues
    } else {
        cues.remove(from).insert(to, cues[from])
    }
}

/// A cue with the given name, duration and kind.
pub open spec fn cue_is(c: TimelineCue, name: Seq<char>, duration_us: int, kind: CueKind) -> bool {
    c.name@ == name && c.duration_us == duration_us && c.kind == kind
}

/// Hold length of an imported-image show: clamped to one second .. five minutes.
pub open spec fn clamp_hold(hold_duration_us: u64) -> int {
    if hold_duration_us < SECOND_US {
        SECOND_US as int
    } else if hold_duration_us > 300 * SECOND_US {
        300 * SECOND_US
    } else {
        hold_duration_us as int
    }
}

/// Formations whose showcase animation cue lasts seven seconds (others five).
pub open spec fn long_animation(f: FormationKind) -> bool {
    f == FormationKind::Chrysalis || f == FormationKind::Cathedral || f == FormationKind::Infinity
        || f == FormationKind::Lotus || f == FormationKind::Crown
}

/// The default showcase, cue by cue: a launch, the core formations each
/// morphed to (but the first) and animated, a reveal and animation of each
/// bonus formation, and a final descent.
pub open spec fn showcase_cue(c: TimelineCue, i: int) -> bool {
    if i == 0 {
        cue_is(c, "Coordinated launch"@, 9 * SECOND_US, CueKind::Launch { target: FormationKind::Chrysalis })
    } else if i < 18 && i % 2 == 1 {
        let f = FormationKind::CORE_SHOWCASE[(i - 1) / 2];
        cue_is(
            c,
            f.label_text(),
            if long_animation(f) { 7 * SECOND_US } else { 5 * SECOND_US },
            CueKind::FormationAnimation { formation: f },
        )
    } else if i < 18 {
        let f = FormationKind::CORE_SHOWCASE[i / 2];
        cue_is(c, "Morph to "@ + f.label_text(), 6 * SECOND_US, CueKind::Transition { target: f })
    } else if i < 24 && i % 2 == 0 {
        let f = FormationKind::BONUS[(i - 18) / 2];
        cue_is(c, "Bonus reveal · "@ + f.label_text(), 7 * SECOND_US, CueKind::Transition { target: f })
    } else if i < 24 {
        let f = FormationKind::BONUS[(i - 19) / 2];
        cue_is(c, "BONUS · "@ + f.label_text(), 9 * SECOND_US, CueKind::FormationAnimation { formation: f })
    } else {
        cue_is(c, "Final descent"@, 10 * SECOND_US, CueKind::Landing)
    }
}

/// Number of cues in the default showcase.
pub const SHOWCASE_CUE_COUNT: usize = 25;

/// Played and nominal prefixes never decrease.
proof fn lemma_prefixes_monotone(cues: Seq<TimelineCue>, m: int, n: int)
    requires
        m <= n,
    ensures
        0 <= played_prefix(cues, m) <= played_prefix(cues, n),
        0 <= nominal_prefix(cues, m) <= nominal_prefix(cues, n),
    decreases n,
{
    if n <= 0 {
    } else if m == n {
        lemma_prefixes_monotone(cues, n - 1, n - 1);
    } else {
        lemma_prefixes_monotone(cues, m, n - 1);
    }
}

/// Saturating addition of a step agrees with saturating the exact sum.
pub proof fn lemma_saturate_step(a: int, e: int)
    requires
        a >= 0,
        0 <= e <= u64::MAX,
    ensures
        saturate(saturate(a) + e) == saturate(a + e),
{
}


/// The played prefix only looks at the cues it covers.
proof fn lemma_prefix_agrees(a: Seq<TimelineCue>, b: Seq<TimelineCue>, n: int)
    requires
        0 <= n <= a.len(),
        n <= b.len(),
        forall|i: int| 0 <= i < n ==> #[trigger] a[i] == b[i],
    ensures
        played_prefix(a, n) == played_prefix(b, n),
    decreases n,
{
    if n > 0 {
        lemma_prefix_agrees(a, b, n - 1);
    }
}

/// Played length of a concatenation.
proof fn lemma_total_concat(a: Seq<TimelineCue>, b: Seq<TimelineCue>)
    ensures
        played_total(a + b) == played_total(a) + played_total(b),
    decreases b.len(),
{
    if b.len() == 0 {
        assert(a + b =~= a);
    } else {
        let b0 = b.drop_last();
        lemma_total_concat(a, b0);
        let ab = a + b;
        assert(ab.drop_last() =~= a + b0);
        lemma_prefix_agrees(ab, a + b0, ab.len() - 1);
        lemma_prefix_agrees(b, b0, b.len() - 1);
    }
}

/// Played length of a single cue.
proof fn lemma_total_single(c: TimelineCue)
    ensures
        played_total(seq![c]) == played(c.duration_us),
{
    assert(played_prefix(seq![c], 0) == 0);
}

/// Played length after removing cue `i`.
proof fn lemma_total_remove(s: Seq<TimelineCue>, i: int)
    requires
        0 <= i < s.len(),
    ensures
        played_total(s.remove(i)) == played_total(s) - played(s[i].duration_us),
{
    let left = s.subrange(0, i);
    let right = s.subrange(i + 1, s.len() as int);
    assert(s =~= left + seq![s[i]] + right);
    assert(s.remove(i) =~= left + right);
    lemma_total_concat(left, seq![s[i]]);
    lemma_total_concat(left + seq![s[i]], right);
    lemma_total_concat(left, right);
    lemma_total_single(s[i]);
}

/// Played length after inserting a cue.
proof fn lemma_total_insert(s: Seq<TimelineCue>, i: int, c: TimelineCue)
    requires
        0 <= i <= s.len(),
    ensures
        played_total(s.insert(i, c)) == played_total(s) + played(c.duration_us),
{
    let left = s.subrange(0, i);
    let right = s.subrange(i, s.len() as int);
    assert(s =~= left + right);
    assert(s.insert(i, c) =~= left + seq![c] + right);
    lemma_total_concat(left, seq![c]);
    lemma_total_concat(left + seq![c], right);
    lemma_total_concat(left, right);
    lemma_total_single(c);
}

/// Cues that last at least [`MIN_CUE_DURATION_US`] play for exactly their
/// nominal duration.
proof fn lemma_nominal_prefix_is_played(cues: Seq<TimelineCue>, n: int)
    requires
        0 <= n <= cues.len(),
        forall|j: int| 0 <= j < n ==> #[trigger] cues[j].duration_us >= MIN_CUE_DURATION_US,
    ensures
        nominal_prefix(cues, n) == played_prefix(cues, n),
    decreases n,
{
    if n > 0 {
        lemma_nominal_prefix_is_played(cues, n - 1);
    }
}

/// Starting playback a little after the nominal start of cue `i` (as a
/// selection in the editor does) lands inside cue `i`, provided the cues
/// before it last at least [`MIN_CUE_DURATION_US`] and the offset is
/// shorter than cue `i`.
pub proof fn lemma_entry_time_lands_in_cue(cues: Seq<TimelineCue>, i: int, offset: int)
    requires
        0 <= i < cues.len(),
        forall|j: int| 0 <= j < i ==> #[trigger] cues[j].duration_us >= MIN_CUE_DURATION_US,
        0 <= offset < played(cues[i].duration_us),
        played_total(cues) <= u64::MAX,
    ensures
        is_active_cue(cues, clip_time(cues, (nominal_prefix(cues, i) + offset) as u64), i),
{
    lemma_nominal_prefix_is_played(cues, i);
    lemma_prefixes_monotone(cues, i, i + 1);
    lemma_prefixes_monotone(cues, i + 1, cues.len() as int);
    let t = nominal_prefix(cues, i) + offset;
    assert(played_prefix(cues, i + 1) == played_prefix(cues, i) + played(cues[i].duration_us));
    assert(0 <= t < played_prefix(cues, i + 1) <= played_total(cues) <= u64::MAX);
    assert(t as u64 == t);
    assert(saturate(played_total(cues)) == played_total(cues));
    assert(clip_time(cues, t as u64) == t);
    assert(cue_end(cues, i) == played_prefix(cues, i + 1));
    assert forall|j: int| 0 <= j < i implies !(t < #[trigger] cue_end(cues, j)) by {
        lemma_prefixes_monotone(cues, j + 1, i);
        assert(cue_end(cues, j) == played_prefix(cues, j + 1));
    }
}

/// Reordering cues keeps exactly the same cues and never changes how long
/// the show plays.
pub proof fn lemma_move_keeps_duration(cues: Seq<TimelineCue>, from: int, offset: int)
    requires
        0 <= from,
    ensures
        played_total(moved_cues(cues, from, offset)) == played_total(cues),
        moved_cues(cues, from, offset).len() == cues.len(),
        moved_cues(cues, from, offset).to_multiset() == cues.to_multiset(),
{
    let to = move_target(cues.len() as int, from, offset);
    if !(cues.len() == 0 || from >= cues.len() || from == to) {
        lemma_total_remove(cues, from);
        lemma_total_insert(cues.remove(from), to, cues[from]);
        vstd::seq_lib::to_multiset_remove(cues, from);
        vstd::seq_lib::to_multiset_insert(cues.remove(from), to, cues[from]);
        vstd::seq_lib::to_multiset_contains(cues, cues[from]);
        broadcast use vstd::multiset::group_multiset_axioms;
        assert(cues.to_multiset().remove(cues[from]).insert(cues[from]) =~= cues.to_multiset());
    }
}

/// Moving a cue and then moving it back by the opposite offset restores
/// the order it started from.
pub proof fn lemma_move_then_move_back(cues: Seq<TimelineCue>, from: int, offset: int)
    requires
        0 <= from < cues.len(),
    ensures
        ({
            let to = move_target(cues.len() as int, from, offset);
            moved_cues(moved_cues(cues, from, offset), to, from - to) == cues
        }),
{
    let to = move_target(cues.len() as int, from, offset);
    if from != to {
        let moved = cues.remove(from).insert(to, cues[from]);
        assert(moved[to] == cues[from]);
        assert(move_target(moved.len() as int, to, from - to) == from);
        assert(moved.remove(to) =~= cues.remove(from));
        assert(cues.remove(from).insert(from, cues[from]) =~= cues);
    }
}

/// Duplicating a cue adds one more copy of it and lengthens the show by
/// exactly that cue's played length.
pub proof fn lemma_duplicate_adds_cue_length(cues: Seq<TimelineCue>, index: int)
    requires
        0 <= index < cues.len(),
    ensures
        played_total(cues.insert(index + 1, cues[index])) == played_total(cues) + played(cues[index].duration_us),
        cues.insert(index + 1, cues[index]).to_multiset() == cues.to_multiset().insert(cues[index]),
{
    lemma_total_insert(cues, index + 1, cues[index]);
    vstd::seq_lib::to_multiset_insert(cues, index + 1, cues[index]);
}

/// The default showcase features every built-in showcase formation and never
/// the imported image.
pub proof fn lemma_showcase_covers_builtin_formations(cues: Seq<TimelineCue>)
    requires
        cues.len() == SHOWCASE_CUE_COUNT,
        forall|i: int| 0 <= i < SHOWCASE_CUE_COUNT ==> showcase_cue(#[trigger] cues[i], i),
    ensures
        forall|k: int| 0 <= k < 12 ==> #[trigger] features_formation(cues, FormationKind::SHOWCASE[k]),
        !features_formation(cues, FormationKind::Image),
{
    assert forall|k: int| 0 <= k < 12 implies #[trigger] features_formation(cues, FormationKind::SHOWCASE[k]) by {
        if k < 9 {
            assert(showcase_cue(cues[2 * k + 1], 2 * k + 1));
            assert(cues[2 * k + 1].kind.formation_spec() == Some(FormationKind::SHOWCASE[k]));
        } else {
            assert(showcase_cue(cues[18 + 2 * (k - 9)], 18 + 2 * (k - 9)));
            assert(cues[18 + 2 * (k - 9)].kind.formation_spec() == Some(FormationKind::SHOWCASE[k]));
        }
    }
    assert forall|i: int| 0 <= i < cues.len() implies #[trigger] cues[i].kind.formation_spec() != Some(FormationKind::Image) by {
        assert(showcase_cue(cues[i], i));
    }
}

/// The default showcase never shows a formation it has not flown to: a cue
/// that keeps the drones in their slots shows the formation the fleet
/// already stands in, and every cue that reassigns slots flies the fleet to
/// a formation other than the one it stands in.
pub proof fn lemma_showcase_flies_to_what_it_shows(cues: Seq<TimelineCue>)
    requires
        cues.len() == SHOWCASE_CUE_COUNT,
        forall|i: int| 0 <= i < SHOWCASE_CUE_COUNT ==> showcase_cue(#[trigger] cues[i], i),
    ensures
        forall|i: int|
            0 <= i < cues.len() && !(#[trigger] cues[i]).kind.reassigns_spec() ==> cues[i].kind.formation_spec()
                == Some(previous_formation_before(cues, i)),
        forall|i: int|
            0 <= i < cues.len() && (#[trigger] cues[i]).kind.reassigns_spec() ==> cues[i].kind.target_spec()
                != previous_formation_before(cues, i),
{
    assert forall|i: int| 0 <= i < cues.len() implies {
        &&& !(#[trigger] cues[i]).kind.reassigns_spec() ==> cues[i].kind.formation_spec() == Some(previous_formation_before(cues, i))
        &&& cues[i].kind.reassigns_spec() ==> cues[i].kind.target_spec() != previous_formation_before(cues, i)
    } by {
        assert(showcase_cue(cues[i], i));
        if i >= 1 {
            assert(showcase_cue(cues[i - 1], i - 1));
        }
        lemma_showcase_step(cues[i], if i >= 1 { cues[i - 1] } else { cues[i] }, i, previous_formation_before(cues, i));
    }
}

/// One cue of the showcase against the one before it.
proof fn lemma_showcase_step(c: TimelineCue, before: TimelineCue, i: int, previous: FormationKind)
    requires
        0 <= i < SHOWCASE_CUE_COUNT,
        showcase_cue(c, i),
        i >= 1 ==> showcase_cue(before, i - 1),
        i == 0 ==> previous == FormationKind::LaunchGrid,
        i >= 1 ==> previous == match before.kind.formation_spec() {
            Some(f) => f,
            None => FormationKind::LaunchGrid,
        },
    ensures
        !c.kind.reassigns_spec() ==> c.kind.formation_spec() == Some(previous),
        c.kind.reassigns_spec() ==> c.kind.target_spec() != previous,
{
    if i == 0 {
    } else if i == 1 {
    } else if i == 2 {
    } else if i == 3 {
    } else if i == 4 {
    } else if i == 5 {
    } else if i == 6 {
    } else if i == 7 {
    } else if i == 8 {
    } else if i == 9 {
    } else if i == 10 {
    } else if i == 11 {
    } else if i == 12 {
    } else if i == 13 {
    } else if i == 14 {
    } else if i == 15 {
    } else if i == 16 {
    } else if i == 17 {
    } else if i == 18 {
    } else if i == 19 {
    } else if i == 20 {
    } else if i == 21 {
    } else if i == 22 {
    } else if i == 23 {
    } else if i == 24 {
    }
}

/// Some cue of the list shows or flies to formation `f`.
pub open spec fn features_formation(cues: Seq<TimelineCue>, f: FormationKind) -> bool {
    exists|i: int| 0 <= i < cues.len() && #[trigger] cues[i].kind.formation_spec() == Some(f)
}

fn played_length(duration_us: u64) -> (r: u64)
    ensures
        r == played(duration_us),
{
    if duration_us < MIN_CUE_DURATION_US {
        MIN_CUE_DURATION_US
    } else {
        duration_us
    }
}

fn named_cue(name: String, duration_us: u64, kind: CueKind) -> (r: TimelineCue)
    ensures
        r.name == name,
        r.duration_us == duration_us,
        r.kind == kind,
{
    TimelineCue { name, duration_us, kind }
}

fn cue(name: &str, duration_us: u64, kind: CueKind) -> (r: TimelineCue)
    ensures
        cue_is(r, name@, duration_us as int, kind),
{
    named_cue(name.to_owned(), duration_us, kind)
}

fn prefixed_name(prefix: &str, formation: FormationKind) -> (r: String)
    ensures
        r@ == prefix@ + formation.label_text(),
{
    let mut name = String::from_str(prefix);
    name.append(formation.label());
    name
}

impl ShowTimeline {
    /// Launch, hold (or GIF playback) and landing of an imported image.
    pub fn imported_image_show(hold_duration_us: u64, animated: bool) -> (r: Self)
        ensures
            r.cues.len() == 3,
            cue_is(r.cues[0], "Image launch"@, 10 * SECOND_US, CueKind::Launch { target: FormationKind::Image }),
            animated ==> cue_is(
                r.cues[1],
                "GIF playback"@,
                clamp_hold(hold_duration_us),
                CueKind::ImageAnimation { formation: FormationKind::Image },
            ),
            !animated ==> cue_is(
                r.cues[1],
                "Image hold"@,
                clamp_hold(hold_duration_us),
                CueKind::Hold { formation: FormationKind::Image },
            ),
            cue_is(r.cues[2], "Coordinated landing"@, 11 * SECOND_US, CueKind::Landing),
    {
        let hold = if hold_duration_us < SECOND_US {
            SECOND_US
        } else if hold_duration_us > 300 * SECOND_US {
            300 * SECOND_US
        } else {
            hold_duration_us
        };
        let mut cues = Vec::new();
        cues.push(cue("Image launch", 10 * SECOND_US, CueKind::Launch { target: FormationKind::Image }));
        if animated {
            cues.push(cue("GIF playback", hold, CueKind::ImageAnimation { formation: FormationKind::Image }));
        } else {
            cues.push(cue("Image hold", hold, CueKind::Hold { formation: FormationKind::Image }));
        }
        cues.push(cue("Coordinated landing", 11 * SECOND_US, CueKind::Landing));
        ShowTimeline { cues }
    }

    /// The default looping show of every built-in formation.
    pub fn showcase() -> (r: Self)
        ensures
            r.cues.len() == SHOWCASE_CUE_COUNT,
            forall|i: int| 0 <= i < SHOWCASE_CUE_COUNT ==> showcase_cue(#[trigger] r.cues@[i], i),
            forall|i: int|
                0 <= i < r.cues.len() && !(#[trigger] r.cues@[i]).kind.reassigns_spec() ==> r.cues@[i].kind.formation_spec()
                    == Some(previous_formation_before(r.cues@, i)),
            forall|i: int|
                0 <= i < r.cues.len() && (#[trigger] r.cues@[i]).kind.reassigns_spec() ==> r.cues@[i].kind.target_spec()
                    != previous_formation_before(r.cues@, i),
    {
        let mut cues: Vec<TimelineCue> = Vec::new();
        cues.push(cue("Coordinated launch", 9 * SECOND_US, CueKind::Launch { target: FormationKind::Chrysalis }));
        let core = FormationKind::CORE_SHOWCASE;
        let mut index: usize = 0;
        while index < 9
            invariant
                core == FormationKind::CORE_SHOWCASE,
                0 <= index <= 9,
                cues.len() == if index == 0 { 1 } else { 2 * index },
                forall|i: int| 0 <= i < cues.len() ==> showcase_cue(#[trigger] cues@[i], i),
            decreases 9 - index,
        {
            let formation = core[index];
            if index > 0 {
                let name = prefixed_name("Morph to ", formation);
                cues.push(named_cue(name, 6 * SECOND_US, CueKind::Transition { target: formation }));
            }
            let long = match formation {
                FormationKind::Chrysalis | FormationKind::Cathedral | FormationKind::Infinity
                | FormationKind::Lotus | FormationKind::Crown => true,
                _ => false,
            };
            cues.push(cue(
                formation.label(),
                if long { 7 * SECOND_US } else { 5 * SECOND_US },
                CueKind::FormationAnimation { formation },
            ));
            index = index + 1;
        }
        let bonus = FormationKind::BONUS;
        let mut index: usize = 0;
        while index < 3
            invariant
                bonus == FormationKind::BONUS,
                0 <= index <= 3,
                cues.len() == 18 + 2 * index,
                forall|i: int| 0 <= i < cues.len() ==> showcase_cue(#[trigger] cues@[i], i),
            decreases 3 - index,
        {
            let formation = bonus[index];
            let reveal = prefixed_name("Bonus reveal · ", formation);
            cues.push(named_cue(reveal, 7 * SECOND_US, CueKind::Transition { target: formation }));
            let show = prefixed_name("BONUS · ", formation);
            cues.push(named_cue(show, 9 * SECOND_US, CueKind::FormationAnimation { formation }));
            index = index + 1;
        }
        cues.push(cue("Final descent", 10 * SECOND_US, CueKind::Landing));
        proof {
            lemma_showcase_flies_to_what_it_shows(cues@);
        }
        ShowTimeline { cues }
    }

    /// Played length of the whole show, in microseconds.
    pub fn duration(&self) -> (r: u64)
        ensures
            r == saturate(played_total(self.cues@)),
    {
        let mut total: u64 = 0;
        let mut index: usize = 0;
        while index < self.cues.len()
            invariant
                0 <= index <= self.cues.len(),
                total == saturate(played_prefix(self.cues@, index as int)),
            decreases self.cues.len() - index,
        {
            proof {
                lemma_prefixes_monotone(self.cues@, index as int, index as int);
                lemma_saturate_step(played_prefix(self.cues@, index as int), played(self.cues@[index as int].duration_us));
            }
            total = total.saturating_add(played_length(self.cues[index].duration_us));
            index = index + 1;
        }
        total
    }

    /// Finds the cue that plays at `time_us` (clipped to the show length),
    /// the time into that cue, and the formation of the cues before it.
    pub fn sample(&self, time_us: u64) -> (r: CueSample)
        requires
            self.cues.len() > 0,
        ensures
            is_active_cue(self.cues@, clip_time(self.cues@, time_us), r.index as int),
            r.local_time_us == clip_time(self.cues@, time_us) - saturate(played_prefix(self.cues@, r.index as int)),
            r.cue_duration_us == played(self.cues@[r.index as int].duration_us),
            r.previous_formation == previous_formation_before(self.cues@, r.index as int),
            r.index < self.cues.len(),
            r.local_time_us <= r.cue_duration_us,
    {
        let total = self.duration();
        let wrapped = if time_us < total { time_us } else { total };
        let ghost cues = self.cues@;
        let mut cursor: u64 = 0;
        let mut previous = FormationKind::LaunchGrid;
        let mut index: usize = 0;
        loop
            invariant
                cues == self.cues@,
                cues.len() > 0,
                0 <= index < cues.len(),
                wrapped == clip_time(cues, time_us),
                cursor == saturate(played_prefix(cues, index as int)),
                cursor <= wrapped,
                previous == previous_formation_before(cues, index as int),
                forall|j: int| 0 <= j < index ==> !(wrapped < #[trigger] cue_end(cues, j)),
            decreases cues.len() - index,
        {
            let cue = &self.cues[index];
            let length = played_length(cue.duration_us);
            let end = cursor.saturating_add(length);
            proof {
                lemma_prefixes_monotone(cues, index as int, index as int);
                lemma_saturate_step(played_prefix(cues, index as int), played(cues[index as int].duration_us));
            }
            assert(end == cue_end(cues, index as int));
            if wrapped < end || index == self.cues.len() - 1 {
                assert(wrapped <= end) by {
                    if index == cues.len() - 1 {
                        assert(index + 1 == cues.len());
                        assert(cue_end(cues, index as int) == saturate(played_total(cues)));
                    }
                }
                return CueSample {
                    index,
                    local_time_us: wrapped - cursor,
                    cue_duration_us: length,
                    previous_formation: previous,
                };
            }
            if let Some(formation) = cue.kind.formation() {
                previous = formation;
            }
            cursor = end;
            index = index + 1;
        }
    }

    /// Start of cue `index` on the nominal clock: the sum of the durations
    /// of the cues before it (of all cues when `index` is past the end).
    pub fn cue_start(&self, index: usize) -> (r: u64)
        ensures
            r == saturate(nominal_prefix(self.cues@, if index < self.cues.len() { index as int } else { self.cues.len() as int })),
    {
        let end = if index < self.cues.len() { index } else { self.cues.len() };
        let mut total: u64 = 0;
        let mut k: usize = 0;
        while k < end
            invariant
                0 <= k <= end <= self.cues.len(),
                total == saturate(nominal_prefix(self.cues@, k as int)),
            decreases end - k,
        {
            proof {
                lemma_prefixes_monotone(self.cues@, k as int, k as int);
                lemma_saturate_step(nominal_prefix(self.cues@, k as int), self.cues@[k as int].duration_us as int);
            }
            total = total.saturating_add(self.cues[k].duration_us);
            k = k + 1;
        }
        total
    }

    /// Moves cue `from` by `offset` places, stopping at either end of the
    /// timeline; nothing moves when there is no cue `from`.
    pub fn move_cue(&mut self, from: usize, offset: isize)
        ensures
            final(self).cues@ == moved_cues(old(self).cues@, from as int, offset as int),
    {
        let len = self.cues.len();
        if from >= len {
            return;
        }
        let shifted = from as i128 + offset as i128;
        let last = len - 1;
        let to: usize = if shifted < 0 {
            0
        } else if shifted > last as i128 {
            last
        } else {
            shifted as usize
        };
        if from != to {
            let ghost old_cues = self.cues@;
            let cue = self.cues.remove(from);
            self.cues.insert(to, cue);
            assert(self.cues@ =~= old_cues.remove(from as int).insert(to as int, old_cues[from as int]));
        }
    }

    /// Inserts a copy of cue `index` right after it.
    pub fn duplicate_cue(&mut self, index: usize)
        ensures
            index < old(self).cues.len() ==> final(self).cues@ == old(self).cues@.insert(
                index + 1,
                old(self).cues@[index as int],
            ),
            index >= old(self).cues.len() ==> final(self).cues@ == old(self).cues@,
    {
        if index < self.cues.len() {
            let cue = self.cues[index].clone();
            self.cues.insert(index + 1, cue);
        }
    }

    /// Index of the first cue that shows or flies to `kind`, if any.
    pub fn first_cue_of(&self, kind: FormationKind) -> (r: Option<usize>)
        ensures
            r is None <==> !features_formation(self.cues@, kind),
            r matches Some(i) ==> {
                &&& i < self.cues.len()
                &&& self.cues@[i as int].kind.formation_spec() == Some(kind)
                &&& forall|j: int| 0 <= j < i ==> #[trigger] self.cues@[j].kind.formation_spec() != Some(kind)
            },
    {
        let mut index: usize = 0;
        while index < self.cues.len()
            invariant
                0 <= index <= self.cues.len(),
                forall|j: int| 0 <= j < index ==> #[trigger] self.cues@[j].kind.formation_spec() != Some(kind),
            decreases self.cues.len() - index,
        {
            if self.cues[index].kind.formation() == Some(kind) {
                return Some(index);
            }
            index = index + 1;
        }
        None
    }

    /// Brings formation `kind` on stage: the timeline is kept when one of its
    /// cues features `kind`, and replaced by the default showcase otherwise.
    /// Returns the first cue that features `kind`, if any. Every built-in
    /// showcase formation is always found.
    pub fn select_formation(&mut self, kind: FormationKind) -> (r: Option<usize>)
        ensures
            features_formation(old(self).cues@, kind) ==> final(self).cues@ == old(self).cues@,
            !features_formation(old(self).cues@, kind) ==> {
                &&& final(self).cues.len() == SHOWCASE_CUE_COUNT
                &&& forall|i: int| 0 <= i < SHOWCASE_CUE_COUNT ==> showcase_cue(#[trigger] final(self).cues@[i], i)
            },
            r is None <==> !features_formation(final(self).cues@, kind),
            r matches Some(i) ==> {
                &&& i < final(self).cues.len()
                &&& final(self).cues@[i as int].kind.formation_spec() == Some(kind)
                &&& forall|j: int| 0 <= j < i ==> #[trigger] final(self).cues@[j].kind.formation_spec() != Some(kind)
            },
            (exists|k: int| 0 <= k < 12 && FormationKind::SHOWCASE[k] == kind) ==> r is Some,
    {
        let found = self.first_cue_of(kind);
        if found.is_some() {
            return found;
        }
        *self = ShowTimeline::showcase();
        proof {
            lemma_showcase_covers_builtin_formations(self.cues@);
        }
        self.first_cue_of(kind)
    }

    /// The formation on show at `time_us`: that of the active cue, or, for
    /// a cue without one (landing), that of the cues before it.
    pub fn current_formation(&self, time_us: u64) -> (r: FormationKind)
        requires
            self.cues.len() > 0,
        ensures
            r == shown_formation(self.cues@, clip_time(self.cues@, time_us)),
    {
        let sample = self.sample(time_us);
        proof {
            lemma_active_cue_unique(self.cues@, clip_time(self.cues@, time_us), sample.index as int);
        }
        match self.cues[sample.index].kind.formation() {
            Some(formation) => formation,
            None => sample.previous_formation,
        }
    }
}

/// The show clock `elapsed_us` after `show_us` (saturating), wrapped to the
/// start of the show once it reaches the end of a show that plays
/// `duration_us`.
pub open spec fn advanced_show_time(show_us: u64, elapsed_us: u64, duration_us: u64) -> u64 {
    let t = saturate(show_us + elapsed_us);
    if t < duration_us {
        t
    } else {
        (t % (if duration_us < MIN_CUE_DURATION_US { MIN_CUE_DURATION_US } else { duration_us })) as u64
    }
}

/// Advances the looping show clock (see [`advanced_show_time`]); the
/// result always lies within the show.
pub fn advance_show_time(show_us: u64, elapsed_us: u64, duration_us: u64) -> (r: u64)
    ensures
        r == advanced_show_time(show_us, elapsed_us, duration_us),
        r < (if duration_us < MIN_CUE_DURATION_US { MIN_CUE_DURATION_US } else { duration_us }),
{
    let t = show_us.saturating_add(elapsed_us);
    if t < duration_us {
        t
    } else {
        let period = if duration_us < MIN_CUE_DURATION_US { MIN_CUE_DURATION_US } else { duration_us };
        t % period
    }
}

/// The formation on show at clipped time `t`: that of the cue active at
/// `t`, or the formation before it when that cue has none.
pub open spec fn shown_formation(cues: Seq<TimelineCue>, t: u64) -> FormationKind {
    let i = choose|i: int| is_active_cue(cues, t, i);
    match cues[i].kind.formation_spec() {
        Some(f) => f,
        None => previous_formation_before(cues, i),
    }
}

/// At most one cue is active at a time.
pub proof fn lemma_active_cue_unique(cues: Seq<TimelineCue>, t: u64, i: int)
    requires
        is_active_cue(cues, t, i),
    ensures
        forall|j: int| #[trigger] is_active_cue(cues, t, j) ==> j == i,
{
    assert forall|j: int| #[trigger] is_active_cue(cues, t, j) implies j == i by {
        if j < i {
            assert(!(t < cue_end(cues, j)));
        } else if i < j {
            assert(!(t < cue_end(cues, i)));
        }
    }
}

impl CueSample {
    /// How far the active cue has played, scaled to `span`: `span` times
    /// the played fraction of the cue (0 ..= 1), rounded down.
    pub fn progress_of(&self, span: u64) -> (r: u64)
        requires
            self.cue_duration_us > 0,
        ensures
            r == (if self.local_time_us < self.cue_duration_us { self.local_time_us } else { self.cue_duration_us })
                * span / self.cue_duration_us as int,
            r <= span,
    {
        let local = if self.local_time_us < self.cue_duration_us { self.local_time_us } else { self.cue_duration_us };
        proof {
            assert(local * span <= u64::MAX * u64::MAX) by (nonlinear_arith)
                requires
                    local <= u64::MAX,
                    span <= u64::MAX,
            ;
        }
        let scaled = (local as u128) * (span as u128) / (self.cue_duration_us as u128);
        proof {
            assert(local * span / self.cue_duration_us as int <= span) by (nonlinear_arith)
                requires
                    local <= self.cue_duration_us,
                    self.cue_duration_us > 0,
            ;
        }
        scaled as u64
    }
}

} // verus!
