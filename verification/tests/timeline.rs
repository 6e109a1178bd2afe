use luma_swarm_studio::model::FormationKind;
use luma_swarm_studio::timeline::{advance_show_time, CueKind, CueSample, ShowTimeline, TimelineCue, SHOWCASE_CUE_COUNT};

const S: u64 = 1_000_000;

fn cue(name: &str, seconds: u64, kind: CueKind) -> TimelineCue {
    TimelineCue { name: name.to_string(), duration_us: seconds * S, kind }
}

#[test]
fn showcase_contains_every_builtin_formation() {
    let timeline = ShowTimeline::showcase();
    for formation in FormationKind::SHOWCASE {
        assert!(
            timeline.cues.iter().any(|cue| cue.kind.formation() == Some(formation)),
            "missing {}",
            formation.label()
        );
    }
    assert!(!timeline.cues.iter().any(|cue| cue.kind.formation() == Some(FormationKind::Image)));
}

#[test]
fn animated_image_show_places_gif_playback_between_launch_and_landing() {
    let timeline = ShowTimeline::imported_image_show(4 * S, true);
    assert!(matches!(timeline.cues[0].kind, CueKind::Launch { .. }));
    assert!(matches!(timeline.cues[1].kind, CueKind::ImageAnimation { .. }));
    assert!(matches!(timeline.cues[2].kind, CueKind::Landing));
}

#[test]
fn still_image_show_holds_and_clamps_its_length() {
    let short = ShowTimeline::imported_image_show(S / 2, false);
    assert_eq!(short.cues[1].name, "Image hold");
    assert_eq!(short.cues[1].kind, CueKind::Hold { formation: FormationKind::Image });
    assert_eq!(short.cues[1].duration_us, S);
    let long = ShowTimeline::imported_image_show(900 * S, true);
    assert_eq!(long.cues[1].name, "GIF playback");
    assert_eq!(long.cues[1].duration_us, 300 * S);
    assert_eq!(long.cues[0].duration_us, 10 * S);
    assert_eq!(long.cues[2].duration_us, 11 * S);
    assert_eq!(long.duration(), 321 * S);
}

#[test]
fn showcase_has_the_documented_running_order() {
    let timeline = ShowTimeline::showcase();
    assert_eq!(timeline.cues.len(), SHOWCASE_CUE_COUNT);
    assert_eq!(timeline.cues[0].name, "Coordinated launch");
    assert_eq!(timeline.cues[1].name, "Stellar chrysalis");
    assert_eq!(timeline.cues[1].duration_us, 7 * S);
    assert_eq!(timeline.cues[2].name, "Morph to Neon heart");
    assert_eq!(timeline.cues[3].duration_us, 5 * S);
    assert_eq!(timeline.cues[18].name, "Bonus reveal · Event horizon");
    assert_eq!(timeline.cues[19].name, "BONUS · Event horizon");
    assert_eq!(timeline.cues[24].name, "Final descent");
    assert_eq!(timeline.cues[24].kind, CueKind::Landing);
    assert_eq!(timeline.duration(), 170 * S);
}

#[test]
fn sampling_finds_the_active_cue_and_previous_formation() {
    let timeline = ShowTimeline::showcase();
    let start = timeline.sample(0);
    assert_eq!((start.index, start.local_time_us, start.cue_duration_us), (0, 0, 9 * S));
    assert_eq!(start.previous_formation, FormationKind::LaunchGrid);
    let later = timeline.sample(9 * S + 2 * S);
    assert_eq!(later.index, 1);
    assert_eq!(later.local_time_us, 2 * S);
    assert_eq!(later.previous_formation, FormationKind::Chrysalis);
    let past_end = timeline.sample(10_000 * S);
    assert_eq!(past_end.index, 24);
    assert_eq!(past_end.local_time_us, 10 * S);
    assert_eq!(past_end.previous_formation, FormationKind::Gyroscope);
}

#[test]
fn very_short_cues_still_play_for_a_hundredth_of_a_second() {
    let timeline = ShowTimeline {
        cues: vec![
            cue("blink", 0, CueKind::Hold { formation: FormationKind::Heart }),
            cue("rest", 2, CueKind::Landing),
        ],
    };
    assert_eq!(timeline.duration(), 2 * S + 10_000);
    assert_eq!(timeline.sample(5_000).index, 0);
    assert_eq!(timeline.sample(10_000).index, 1);
    assert_eq!(timeline.cue_start(1), 0);
}

#[test]
fn cue_start_sums_nominal_durations() {
    let timeline = ShowTimeline::showcase();
    assert_eq!(timeline.cue_start(0), 0);
    assert_eq!(timeline.cue_start(1), 9 * S);
    assert_eq!(timeline.cue_start(3), 9 * S + 7 * S + 6 * S);
    assert_eq!(timeline.cue_start(100), timeline.duration());
}

#[test]
fn moving_a_cue_clamps_at_the_ends_and_can_be_undone() {
    let mut timeline = ShowTimeline::showcase();
    let initial_names: Vec<String> = timeline.cues.iter().map(|cue| cue.name.clone()).collect();
    let duration = timeline.duration();
    timeline.move_cue(2, -10);
    assert_eq!(timeline.cues[0].name, "Morph to Neon heart");
    assert_eq!(timeline.cues[1].name, "Coordinated launch");
    assert_eq!(timeline.duration(), duration);
    timeline.move_cue(0, 2);
    let restored: Vec<String> = timeline.cues.iter().map(|cue| cue.name.clone()).collect();
    assert_eq!(restored, initial_names);
    timeline.move_cue(23, 50);
    assert_eq!(timeline.cues[24].name, initial_names[23]);
    timeline.move_cue(99, 1);
    assert_eq!(timeline.cues.len(), SHOWCASE_CUE_COUNT);
}

#[test]
fn duplicating_a_cue_lengthens_the_show_by_that_cue() {
    let mut timeline = ShowTimeline::showcase();
    let duration = timeline.duration();
    timeline.duplicate_cue(1);
    assert_eq!(timeline.cues.len(), SHOWCASE_CUE_COUNT + 1);
    assert_eq!(timeline.cues[2], timeline.cues[1]);
    assert_eq!(timeline.duration(), duration + 7 * S);
    timeline.duplicate_cue(500);
    assert_eq!(timeline.cues.len(), SHOWCASE_CUE_COUNT + 1);
}

#[test]
fn cue_kinds_know_their_labels_targets_and_slot_reassignment() {
    assert_eq!(CueKind::ImageAnimation { formation: FormationKind::Image }.label(), "PLAY GIF");
    assert_eq!(CueKind::Landing.label(), "LAND");
    assert_eq!(CueKind::Landing.formation(), None);
    assert_eq!(CueKind::Landing.target_formation(), FormationKind::LaunchGrid);
    assert_eq!(CueKind::ColorWave { formation: FormationKind::Lotus }.target_formation(), FormationKind::Lotus);
    assert!(CueKind::Transition { target: FormationKind::Heart }.reassigns_slots());
    assert!(CueKind::Launch { target: FormationKind::Heart }.reassigns_slots());
    assert!(CueKind::Landing.reassigns_slots());
    assert!(!CueKind::Hold { formation: FormationKind::Heart }.reassigns_slots());
}

#[test]
fn selecting_a_builtin_formation_restores_the_showcase() {
    let mut timeline = ShowTimeline::imported_image_show(4 * S, false);
    assert_eq!(timeline.first_cue_of(FormationKind::Image), Some(0));
    assert_eq!(timeline.select_formation(FormationKind::Image), Some(0));
    assert_eq!(timeline.cues.len(), 3);
    assert_eq!(timeline.select_formation(FormationKind::Galaxy), Some(4));
    assert_eq!(timeline.cues.len(), SHOWCASE_CUE_COUNT);
    assert_eq!(timeline.select_formation(FormationKind::Image), None);
    assert_eq!(timeline.first_cue_of(FormationKind::LaunchGrid), None);
}

#[test]
fn landing_shows_the_formation_before_it() {
    let timeline = ShowTimeline::imported_image_show(4 * S, false);
    assert_eq!(timeline.current_formation(0), FormationKind::Image);
    assert_eq!(timeline.current_formation(20 * S), FormationKind::Image);
    assert_eq!(timeline.sample(20 * S).index, 2);
}

#[test]
fn progress_is_scaled_and_capped() {
    let sample = CueSample { index: 0, local_time_us: 250_000, cue_duration_us: 1_000_000, previous_formation: FormationKind::LaunchGrid };
    assert_eq!(sample.progress_of(2_000_000), 500_000);
    let over = CueSample { local_time_us: 3_000_000, ..sample };
    assert_eq!(over.progress_of(2_000_000), 2_000_000);
}

#[test]
fn show_clock_loops_at_the_end() {
    assert_eq!(advance_show_time(1_000, 500, 10_000_000), 1_500);
    assert_eq!(advance_show_time(9_900_000, 200_000, 10_000_000), 100_000);
    assert_eq!(advance_show_time(9_999_999, 1, 10_000_000), 0);
    assert_eq!(advance_show_time(5_000, 7_000, 0), 2_000);
    assert_eq!(advance_show_time(u64::MAX, 5, 7), u64::MAX % 10_000);
}

#[test]
fn selecting_a_cue_parks_the_clock_inside_it() {
    let timeline = ShowTimeline::showcase();
    for index in 0..timeline.cues.len() {
        let entry = timeline.cue_start(index) + 150_000;
        assert_eq!(timeline.sample(entry).index, index);
    }
}

#[test]
fn cue_labels_and_formations_tell_the_kinds_apart() {
    let kinds = [
        CueKind::Launch { target: FormationKind::Heart },
        CueKind::Hold { formation: FormationKind::Heart },
        CueKind::Transition { target: FormationKind::Heart },
        CueKind::FormationAnimation { formation: FormationKind::Heart },
        CueKind::ImageAnimation { formation: FormationKind::Heart },
        CueKind::ColorWave { formation: FormationKind::Heart },
        CueKind::CameraCue { formation: FormationKind::Heart },
        CueKind::Landing,
    ];
    for (i, a) in kinds.iter().enumerate() {
        for b in &kinds[i + 1..] {
            assert_ne!(a.label(), b.label());
        }
        assert_eq!(a.formation().is_none(), *a == CueKind::Landing);
    }
    assert_eq!(CueKind::Hold { formation: FormationKind::Galaxy }.label(), "HOLD");
    assert_eq!(CueKind::Hold { formation: FormationKind::Heart }.formation(), Some(FormationKind::Heart));
}

#[test]
fn sampled_time_stays_within_its_cue() {
    let timeline = ShowTimeline {
        cues: vec![
            cue("up", 3, CueKind::Launch { target: FormationKind::Heart }),
            cue("blink", 0, CueKind::Hold { formation: FormationKind::Heart }),
            cue("down", 2, CueKind::Landing),
        ],
    };
    for t in (0..7 * S).step_by(250_000) {
        let sample = timeline.sample(t);
        assert!(sample.index < 3);
        assert!(sample.local_time_us <= sample.cue_duration_us, "{t}");
    }
    let end = timeline.sample(u64::MAX);
    assert_eq!(end.index, 2);
    assert_eq!(end.local_time_us, end.cue_duration_us);
}
