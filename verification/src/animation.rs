//! Animated images: frame timing, which frame shows during playback, and the
//! pairwise compaction that keeps long animations within a frame budget.
//!
//! Durations are whole microseconds.

use vstd::prelude::*;
use crate::timeline::{saturate, lemma_saturate_step, CueKind, CueSample};

verus! {

/// Most frames kept for one animation; longer ones are compacted pairwise.
pub const MAX_ANIMATION_FRAMES: usize = 160;

/// Shortest frame of an animated image: a sixtieth of a second, rounded up.
pub const MIN_GIF_FRAME_US: u64 = 16_667;

/// Shortest step the frame lookup advances by: one millisecond.
pub const MIN_LOOKUP_STEP_US: u64 = 1_000;

/// The colours of one animation frame, one packed RGBA value per drone of
/// the image lattice, and how long the frame shows.
#[derive(Debug)]
pub struct AnimationFrame {
    pub packed_rgba: Vec<u32>,
    pub duration_us: u64,
}

/// The frames of an animated image and its total length.
#[derive(Debug)]
pub struct SampledAnimation {
    pub frames: Vec<AnimationFrame>,
    pub duration_us: u64,
}

/// Length of a frame whose delay is `numer / denom` milliseconds: at least
/// [`MIN_GIF_FRAME_US`], a zero denominator read as one.
pub open spec fn gif_frame_us(numer: u32, denom: u32) -> int {
    let d: int = if denom < 1 { 1 } else { denom as int };
    let us = (numer as int * 1000) / d;
    if us < MIN_GIF_FRAME_US { MIN_GIF_FRAME_US as int } else { us }
}

/// Frame length for a delay of `numer / denom` milliseconds (see
/// [`gif_frame_us`]).
pub fn frame_duration_us(numer: u32, denom: u32) -> (r: u64)
    ensures
        r == gif_frame_us(numer, denom),
{
    let d: u64 = if denom < 1 { 1 } else { denom as u64 };
    let us = (numer as u64) * 1000 / d;
    if us < MIN_GIF_FRAME_US {
        MIN_GIF_FRAME_US
    } else {
        us
    }
}

/// How far the frame lookup advances for a frame of length `d`.
pub open spec fn lookup_step(d: u64) -> int {
    if d < MIN_LOOKUP_STEP_US { MIN_LOOKUP_STEP_US as int } else { d as int }
}

/// Total lookup length of the first `n` frames.
pub open spec fn step_prefix(frames: Seq<AnimationFrame>, n: int) -> int
    decreases n,
{
    if n <= 0 {
        0
    } else {
        step_prefix(frames, n - 1) + lookup_step(frames[n - 1].duration_us)
    }
}

/// End of frame `i` on the (saturated) lookup clock.
pub open spec fn frame_end(frames: Seq<AnimationFrame>, i: int) -> u64 {
    saturate(step_prefix(frames, i + 1))
}

/// Frame `i` shows at playback time `t`: it is the first frame that has not
/// ended by `t`, or the last frame.
pub open spec fn is_frame_at(frames: Seq<AnimationFrame>, t: u64, i: int) -> bool {
    &&& 0 <= i < frames.len()
    &&& (t < frame_end(frames, i) || i == frames.len() - 1)
    &&& forall|j: int| 0 <= j < i ==> !(t < #[trigger] frame_end(frames, j))
}

/// Sum of the frame lengths.
pub open spec fn total_duration(frames: Seq<AnimationFrame>) -> int
    decreases frames.len(),
{
    if frames.len() == 0 {
        0
    } else {
        total_duration(frames.drop_last()) + frames.last().duration_us
    }
}

proof fn lemma_step_prefix_nonnegative(frames: Seq<AnimationFrame>, n: int)
    ensures
        step_prefix(frames, n) >= 0,
    decreases n,
{
    if n > 0 {
        lemma_step_prefix_nonnegative(frames, n - 1);
    }
}

proof fn lemma_total_nonnegative(frames: Seq<AnimationFrame>)
    ensures
        total_duration(frames) >= 0,
    decreases frames.len(),
{
    if frames.len() > 0 {
        lemma_total_nonnegative(frames.drop_last());
    }
}

/// Frame `k` of the compaction of `frames`: frames `2k` and `2k + 1` merge
/// into one that shows the later frame's colours for both lengths; an
/// unpaired last frame stays as it is.
pub open spec fn compacted_frame(frames: Seq<AnimationFrame>, compacted: Seq<AnimationFrame>, k: int) -> bool {
    if 2 * k + 1 < frames.len() {
        &&& compacted[k].packed_rgba@ == frames[2 * k + 1].packed_rgba@
        &&& compacted[k].duration_us == saturate(frames[2 * k].duration_us + frames[2 * k + 1].duration_us)
    } else {
        &&& compacted[k].packed_rgba@ == frames[2 * k].packed_rgba@
        &&& compacted[k].duration_us == frames[2 * k].duration_us
    }
}

/// Frames `2k` and `2k + 1` last no longer together than the largest
/// representable length.
pub open spec fn pair_fits(frames: Seq<AnimationFrame>, k: int) -> bool {
    frames[2 * k].duration_us + frames[2 * k + 1].duration_us <= u64::MAX
}

/// `compacted` is the pairwise compaction of `frames`.
pub open spec fn is_compaction(frames: Seq<AnimationFrame>, compacted: Seq<AnimationFrame>) -> bool {
    &&& compacted.len() == (frames.len() + 1) / 2
    &&& forall|k: int| 0 <= k < compacted.len() ==> #[trigger] compacted_frame(frames, compacted, k)
}

/// Halves the number of frames: each pair of neighbouring frames becomes
/// one frame with the later frame's colours and the pair's joint length.
pub fn compact_animation_frames(frames: &mut Vec<AnimationFrame>)
    ensures
        is_compaction(old(frames)@, final(frames)@),
{
    let ghost given = frames@;
    let mut source: Vec<AnimationFrame> = Vec::new();
    std::mem::swap(frames, &mut source);
    let n = source.len();
    let mut compacted: Vec<AnimationFrame> = Vec::new();
    let mut k: usize = 0;
    while source.len() > 1
        invariant
            n == given.len(),
            2 * k <= n,
            source@ == given.subrange(2 * k as int, n as int),
            compacted.len() == k,
            forall|j: int| 0 <= j < k ==> #[trigger] compacted_frame(given, compacted@, j),
        decreases source.len(),
    {
        let ghost pushed = compacted@;
        let first = source.remove(0);
        let second = source.remove(0);
        let duration_us = first.duration_us.saturating_add(second.duration_us);
        compacted.push(AnimationFrame { packed_rgba: second.packed_rgba, duration_us });
        k = k + 1;
        assert(compacted_frame(given, compacted@, k - 1));
        assert(source@ =~= given.subrange(2 * k as int, n as int));
        assert forall|j: int| 0 <= j < k implies #[trigger] compacted_frame(given, compacted@, j) by {
            if j < k - 1 {
                assert(compacted_frame(given, pushed, j));
                assert(compacted@[j] == pushed[j]);
            }
        }
    }
    if source.len() == 1 {
        let ghost pushed = compacted@;
        let last = source.remove(0);
        compacted.push(last);
        assert(compacted_frame(given, compacted@, k as int));
        assert forall|j: int| 0 <= j < k + 1 implies #[trigger] compacted_frame(given, compacted@, j) by {
            if j < k {
                assert(compacted_frame(given, pushed, j));
                assert(compacted@[j] == pushed[j]);
            }
        }
    }
    *frames = compacted;
}

/// Appends a decoded frame, compacting the frames pairwise once there are
/// more than [`MAX_ANIMATION_FRAMES`].
pub fn record_animation_frame(frames: &mut Vec<AnimationFrame>, frame: AnimationFrame)
    ensures
        old(frames).len() + 1 <= MAX_ANIMATION_FRAMES ==> final(frames)@ == old(frames)@.push(frame),
        old(frames).len() + 1 > MAX_ANIMATION_FRAMES ==> is_compaction(old(frames)@.push(frame), final(frames)@),
        old(frames).len() <= MAX_ANIMATION_FRAMES ==> final(frames).len() <= MAX_ANIMATION_FRAMES,
{
    frames.push(frame);
    if frames.len() > MAX_ANIMATION_FRAMES {
        compact_animation_frames(frames);
    }
}

impl SampledAnimation {
    /// An animation of the given frames; its length is the sum of theirs
    /// (saturating at the largest representable length).
    pub fn new(frames: Vec<AnimationFrame>) -> (r: Self)
        ensures
            r.frames@ == frames@,
            r.duration_us == saturate(total_duration(frames@)),
    {
        let mut total: u64 = 0;
        let mut index: usize = 0;
        while index < frames.len()
            invariant
                0 <= index <= frames.len(),
                total == saturate(total_duration(frames@.take(index as int))),
            decreases frames.len() - index,
        {
            proof {
                let prefix = frames@.take(index as int + 1);
                assert(prefix.drop_last() =~= frames@.take(index as int));
                lemma_total_nonnegative(frames@.take(index as int));
                lemma_saturate_step(total_duration(frames@.take(index as int)), frames@[index as int].duration_us as int);
            }
            total = total.saturating_add(frames[index].duration_us);
            index = index + 1;
        }
        assert(frames@.take(frames.len() as int) =~= frames@);
        SampledAnimation { frames, duration_us: total }
    }

    /// The frame that shows `playback_us` into the animation (clipped to its
    /// length); 0 when there are no frames.
    pub fn frame_at(&self, playback_us: u64) -> (r: usize)
        ensures
            self.frames.len() == 0 ==> r == 0,
            self.frames.len() > 0 ==> is_frame_at(
                self.frames@,
                if playback_us < self.duration_us { playback_us } else { self.duration_us },
                r as int,
            ),
    {
        if self.frames.len() == 0 {
            return 0;
        }
        let time = if playback_us < self.duration_us { playback_us } else { self.duration_us };
        let ghost frames = self.frames@;
        let mut cursor: u64 = 0;
        let mut index: usize = 0;
        loop
            invariant
                frames == self.frames@,
                frames.len() > 0,
                time == (if playback_us < self.duration_us { playback_us } else { self.duration_us }),
                0 <= index < frames.len(),
                cursor == saturate(step_prefix(frames, index as int)),
                forall|j: int| 0 <= j < index ==> !(time < #[trigger] frame_end(frames, j)),
            decreases frames.len() - index,
        {
            let d = self.frames[index].duration_us;
            let step = if d < MIN_LOOKUP_STEP_US { MIN_LOOKUP_STEP_US } else { d };
            proof {
                lemma_step_prefix_nonnegative(frames, index as int);
                lemma_saturate_step(step_prefix(frames, index as int), lookup_step(frames[index as int].duration_us));
            }
            let end = cursor.saturating_add(step);
            assert(end == frame_end(frames, index as int));
            if time < end || index == self.frames.len() - 1 {
                assert(is_frame_at(frames, time, index as int));
                return index;
            }
            cursor = end;
            index = index + 1;
        }
    }

    /// The frame to show while a cue of kind `kind` plays as `sample`
    /// describes: during GIF playback the frame at the cue's progress
    /// through the animation, the last frame while landing, the first
    /// otherwise.
    pub fn frame_for_cue(&self, kind: CueKind, sample: &CueSample) -> (r: usize)
        requires
            self.frames.len() > 0,
            sample.cue_duration_us > 0,
        ensures
            kind is ImageAnimation ==> is_frame_at(
                self.frames@,
                ({
                    let local = if sample.local_time_us < sample.cue_duration_us {
                        sample.local_time_us
                    } else {
                        sample.cue_duration_us
                    };
                    local * self.duration_us / sample.cue_duration_us as int
                }) as u64,
                r as int,
            ),
            kind is Landing ==> r == self.frames.len() - 1,
            !(kind is ImageAnimation) && !(kind is Landing) ==> r == 0,
    {
        match kind {
            CueKind::ImageAnimation { .. } => {
                let playback = sample.progress_of(self.duration_us);
                self.frame_at(playback)
            },
            CueKind::Landing => self.frames.len() - 1,
            _ => 0,
        }
    }
}

/// The source point whose colour destination point `index` of
/// `destination_len` takes when `source_len` coloured points are spread
/// over them: the proportional index, kept within the sources.
pub open spec fn color_source(index: int, source_len: int, destination_len: int) -> int {
    let d = if destination_len < 1 { 1 } else { destination_len };
    let s = index * source_len / d;
    if s < source_len - 1 { s } else { source_len - 1 }
}

/// For each of `destination_len` points, the index of the source point
/// among `source_len` whose colour it takes (see [`color_source`]); empty
/// when either side is empty, as then no colour changes.
pub fn color_sources(source_len: usize, destination_len: usize) -> (r: Vec<usize>)
    ensures
        source_len == 0 || destination_len == 0 ==> r.len() == 0,
        source_len > 0 && destination_len > 0 ==> r.len() == destination_len,
        forall|i: int| 0 <= i < r.len() ==> #[trigger] r@[i] == color_source(i, source_len as int, destination_len as int),
{
    let mut result: Vec<usize> = Vec::new();
    if source_len == 0 || destination_len == 0 {
        return result;
    }
    let mut index: usize = 0;
    while index < destination_len
        invariant
            source_len > 0,
            destination_len > 0,
            0 <= index <= destination_len,
            result.len() == index,
            forall|i: int| 0 <= i < index ==> #[trigger] result@[i] == color_source(i, source_len as int, destination_len as int),
        decreases destination_len - index,
    {
        proof {
            assert(index * source_len <= 0xffff_ffff_ffff_ffffu128 * 0xffff_ffff_ffff_ffffu128) by (nonlinear_arith)
                requires
                    index <= 0xffff_ffff_ffff_ffffu128,
                    source_len <= 0xffff_ffff_ffff_ffffu128,
            ;
            assert(index * source_len / destination_len as int <= source_len) by (nonlinear_arith)
                requires
                    index <= destination_len,
                    destination_len > 0,
            ;
        }
        let scaled = (index as u128) * (source_len as u128) / (destination_len as u128);
        let last = source_len - 1;
        let source = if scaled < last as u128 { scaled as usize } else { last };
        result.push(source);
        index = index + 1;
    }
    result
}

/// Spreading colours keeps every destination on a real source, never goes
/// back along the sources, and maps equal-sized sets one to one.
pub proof fn lemma_color_sources_in_order(i: int, j: int, source_len: int, destination_len: int)
    requires
        source_len > 0,
        destination_len > 0,
        0 <= i <= j < destination_len,
    ensures
        0 <= color_source(i, source_len, destination_len) < source_len,
        color_source(i, source_len, destination_len) <= color_source(j, source_len, destination_len),
        source_len == destination_len ==> color_source(i, source_len, destination_len) == i,
{
    assert(0 <= i * source_len / destination_len <= j * source_len / destination_len) by (nonlinear_arith)
        requires
            0 <= i <= j,
            source_len > 0,
            destination_len > 0,
    ;
    if source_len == destination_len {
        assert(i * source_len / destination_len == i) by (nonlinear_arith)
            requires
                source_len == destination_len,
                destination_len > 0,
        ;
    }
}

/// Playback never steps back: a later playback time shows the same frame
/// or a later one (so each time shows exactly one frame).
pub proof fn lemma_frame_at_is_monotone(frames: Seq<AnimationFrame>, t1: u64, t2: u64, i: int, j: int)
    requires
        is_frame_at(frames, t1, i),
        is_frame_at(frames, t2, j),
        t1 <= t2,
    ensures
        i <= j,
        t1 == t2 ==> i == j,
{
    if j < i {
        assert(!(t1 < frame_end(frames, j)));
    }
    if t1 == t2 && i < j {
        assert(!(t2 < frame_end(frames, i)));
    }
}

/// Compaction halves the frame count (rounding up), keeps the last frame's
/// colours, and keeps the total length when no merged pair overflows.
pub proof fn lemma_compaction_keeps_length_and_last_frame(frames: Seq<AnimationFrame>, compacted: Seq<AnimationFrame>)
    requires
        is_compaction(frames, compacted),
        frames.len() > 0,
        forall|k: int| 0 <= k && 2 * k + 1 < frames.len() ==> #[trigger] pair_fits(frames, k),
    ensures
        compacted.len() == (frames.len() + 1) / 2,
        compacted.last().packed_rgba@ == frames.last().packed_rgba@,
        total_duration(compacted) == total_duration(frames),
{
    let m = compacted.len() as int;
    assert(compacted_frame(frames, compacted, m - 1));
    assert(compacted.take(m) =~= compacted);
    if frames.len() % 2 == 0 {
        lemma_compaction_prefix(frames, compacted, m);
        assert(frames.take(2 * m) =~= frames);
    } else {
        lemma_compaction_prefix(frames, compacted, m - 1);
        assert(compacted.drop_last() =~= compacted.take(m - 1));
        assert(frames.drop_last() =~= frames.take(2 * (m - 1)));
    }
}

/// The first `k` compacted frames last as long as the first `2k` frames.
proof fn lemma_compaction_prefix(frames: Seq<AnimationFrame>, compacted: Seq<AnimationFrame>, k: int)
    requires
        is_compaction(frames, compacted),
        0 <= k <= compacted.len(),
        2 * k <= frames.len(),
        forall|j: int| 0 <= j && 2 * j + 1 < frames.len() ==> #[trigger] pair_fits(frames, j),
    ensures
        total_duration(compacted.take(k)) == total_duration(frames.take(2 * k)),
    decreases k,
{
    if k > 0 {
        lemma_compaction_prefix(frames, compacted, k - 1);
        assert(compacted_frame(frames, compacted, k - 1));
        assert(pair_fits(frames, k - 1));
        assert(compacted.take(k).drop_last() =~= compacted.take(k - 1));
        let c = compacted.take(k);
        assert(c.drop_last() =~= compacted.take(k - 1));
        assert(total_duration(c) == total_duration(compacted.take(k - 1)) + compacted[k - 1].duration_us);
        let f = frames.take(2 * k);
        assert(f.drop_last() =~= frames.take(2 * k - 1));
        assert(f.drop_last().drop_last() =~= frames.take(2 * (k - 1)));
        assert(total_duration(f) == total_duration(f.drop_last()) + frames[2 * k - 1].duration_us);
        assert(total_duration(f.drop_last()) == total_duration(frames.take(2 * (k - 1))) + frames[2 * k - 2].duration_us);
    }
}

} // verus!
