use luma_swarm_studio::animation::{
    color_sources, compact_animation_frames, frame_duration_us, record_animation_frame, AnimationFrame,
    SampledAnimation, MAX_ANIMATION_FRAMES, MIN_GIF_FRAME_US,
};
use luma_swarm_studio::model::FormationKind;
use luma_swarm_studio::timeline::{CueKind, CueSample};

fn frame(colour: u32, duration_us: u64) -> AnimationFrame {
    AnimationFrame { packed_rgba: vec![colour], duration_us }
}

#[test]
fn animation_frame_lookup_reaches_the_last_frame() {
    let animation = SampledAnimation { frames: vec![frame(0, 100_000), frame(0, 200_000)], duration_us: 300_000 };
    assert_eq!(animation.frame_at(50_000), 0);
    assert_eq!(animation.frame_at(290_000), 1);
}

#[test]
fn frame_lookup_clips_to_the_animation_and_steps_at_least_a_millisecond() {
    let animation = SampledAnimation::new(vec![frame(1, 0), frame(2, 0), frame(3, 5_000)]);
    assert_eq!(animation.duration_us, 5_000);
    assert_eq!(animation.frame_at(500), 0);
    assert_eq!(animation.frame_at(1_000), 1);
    assert_eq!(animation.frame_at(2_500), 2);
    assert_eq!(animation.frame_at(1_000_000), 2);
    let empty = SampledAnimation::new(Vec::new());
    assert_eq!(empty.duration_us, 0);
    assert_eq!(empty.frame_at(10), 0);
}

#[test]
fn gif_delays_become_frame_lengths() {
    assert_eq!(frame_duration_us(100, 1), 100_000);
    assert_eq!(frame_duration_us(1, 3), MIN_GIF_FRAME_US);
    assert_eq!(frame_duration_us(50, 0), 50_000);
    assert_eq!(frame_duration_us(70, 2), 35_000);
    assert_eq!(frame_duration_us(0, 1), MIN_GIF_FRAME_US);
}

#[test]
fn compaction_pairs_frames_and_keeps_the_length() {
    let mut frames = vec![frame(1, 10), frame(2, 20), frame(3, 30), frame(4, 40), frame(5, 50)];
    compact_animation_frames(&mut frames);
    assert_eq!(frames.len(), 3);
    assert_eq!(frames[0].packed_rgba, vec![2]);
    assert_eq!(frames[0].duration_us, 30);
    assert_eq!(frames[1].packed_rgba, vec![4]);
    assert_eq!(frames[1].duration_us, 70);
    assert_eq!(frames[2].packed_rgba, vec![5]);
    assert_eq!(frames[2].duration_us, 50);
    assert_eq!(frames.iter().map(|f| f.duration_us).sum::<u64>(), 150);
    let mut none: Vec<AnimationFrame> = Vec::new();
    compact_animation_frames(&mut none);
    assert!(none.is_empty());
}

#[test]
fn recording_keeps_long_animations_within_the_frame_budget() {
    let mut frames = Vec::new();
    for index in 0..1_000u32 {
        record_animation_frame(&mut frames, frame(index, 20_000));
        assert!(frames.len() <= MAX_ANIMATION_FRAMES);
    }
    assert_eq!(frames.iter().map(|f| f.duration_us).sum::<u64>(), 1_000 * 20_000);
    assert_eq!(frames.last().unwrap().packed_rgba, vec![999]);
    let mut short = Vec::new();
    record_animation_frame(&mut short, frame(7, 1));
    assert_eq!(short.len(), 1);
}

#[test]
fn cue_kind_selects_the_frame_to_show() {
    let animation = SampledAnimation::new(vec![frame(1, 100_000), frame(2, 100_000), frame(3, 100_000)]);
    let sample = CueSample {
        index: 1,
        local_time_us: 2_500_000,
        cue_duration_us: 4_000_000,
        previous_formation: FormationKind::Image,
    };
    let playback = CueKind::ImageAnimation { formation: FormationKind::Image };
    assert_eq!(animation.frame_for_cue(playback, &sample), 1);
    assert_eq!(animation.frame_for_cue(CueKind::Landing, &sample), 2);
    assert_eq!(animation.frame_for_cue(CueKind::Hold { formation: FormationKind::Image }, &sample), 0);
}

#[test]
fn colours_spread_proportionally_over_a_formation() {
    assert_eq!(color_sources(4, 8), vec![0, 0, 1, 1, 2, 2, 3, 3]);
    assert_eq!(color_sources(8, 4), vec![0, 2, 4, 6]);
    assert_eq!(color_sources(3, 3), vec![0, 1, 2]);
    assert!(color_sources(0, 5).is_empty());
    assert!(color_sources(5, 0).is_empty());
}

#[test]
fn later_playback_never_shows_an_earlier_frame() {
    let animation = SampledAnimation::new(vec![frame(1, 40_000), frame(2, 0), frame(3, 30_000), frame(4, 10_000)]);
    let mut last = 0;
    for t in (0..100_000u64).step_by(500) {
        let index = animation.frame_at(t);
        assert!(index >= last, "{t}: {index} after {last}");
        assert!(index < 4);
        last = index;
    }
    assert_eq!(last, 3);
}
