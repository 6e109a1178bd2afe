use luma_swarm_studio::incidents::{safety_status, IncidentHistory, SafetyStatus};
use luma_swarm_studio::safety_log::{rising_incident_count, CollisionKind, RunCollisionLog, SafetyObservation, MAX_RECORDS};

#[derive(Clone, Copy, Debug, PartialEq)]
struct Detail {
    run_time: f32,
    show_time: f32,
    clearance: f32,
}

fn observation(sequence: u64, collisions: u32) -> SafetyObservation<Detail> {
    SafetyObservation {
        audit_sequence: sequence,
        collision_pairs: collisions,
        ground_breaches: 0,
        collision_pair: if collisions > 0 { Some((4, 9)) } else { None },
        ground_drone: None,
        air_detail: Detail { run_time: sequence as f32, show_time: sequence as f32 * 0.5, clearance: 0.12 },
        ground_detail: Detail { run_time: sequence as f32, show_time: sequence as f32 * 0.5, clearance: 3.0 },
    }
}

fn ground_observation(sequence: u64, breaches: u32, drone: Option<u32>) -> SafetyObservation<Detail> {
    SafetyObservation {
        audit_sequence: sequence,
        collision_pairs: 0,
        ground_breaches: breaches,
        collision_pair: None,
        ground_drone: drone,
        air_detail: Detail { run_time: 0.0, show_time: 0.0, clearance: 1.0 },
        ground_detail: Detail { run_time: sequence as f32, show_time: sequence as f32, clearance: -0.2 },
    }
}

#[test]
fn persistent_pair_is_counted_once_but_a_new_episode_is_retained() {
    let mut log = RunCollisionLog::default();
    log.observe(observation(1, 1));
    log.observe(observation(2, 1));
    log.observe(observation(3, 0));
    log.observe(observation(4, 1));
    assert_eq!(log.cumulative_drone_collisions(), 2);
    assert_eq!(log.records().len(), 2);
    assert_eq!(log.records()[1].detail.show_time, 2.0);
}

#[test]
fn duplicate_async_readback_is_not_logged_twice() {
    let mut log = RunCollisionLog::default();
    log.observe(observation(7, 2));
    log.observe(observation(7, 2));
    assert_eq!(log.cumulative_drone_collisions(), 2);
    assert_eq!(log.records().len(), 1);
}

#[test]
fn collision_labels_name_both_kinds() {
    assert_eq!(CollisionKind::DroneToDrone.label(), "DRONE COLLISION");
    assert_eq!(CollisionKind::GroundContact.label(), "GROUND CONTACT");
}

#[test]
fn rising_incident_count_covers_every_branch() {
    assert_eq!(rising_incident_count(3, 0, Some(1u32), None), 0);
    assert_eq!(rising_incident_count(0, 4, None, Some(1u32)), 4);
    assert_eq!(rising_incident_count(2, 5, Some(1u32), Some(1u32)), 3);
    assert_eq!(rising_incident_count(5, 5, Some(1u32), Some(2u32)), 1);
    assert_eq!(rising_incident_count(5, 3, Some(1u32), Some(1u32)), 0);
    assert_eq!(rising_incident_count::<u32>(5, 3, Some(1), None), 0);
}

#[test]
fn records_carry_consecutive_ids_kinds_and_representatives() {
    let mut log = RunCollisionLog::new();
    log.observe(observation(1, 2));
    log.observe(ground_observation(2, 1, Some(17)));
    let records = log.records();
    assert_eq!(records.len(), 2);
    assert_eq!(records[0].id, 1);
    assert_eq!(records[0].kind, CollisionKind::DroneToDrone);
    assert_eq!(records[0].count, 2);
    assert_eq!((records[0].drone_a, records[0].drone_b), (Some(4), Some(9)));
    assert_eq!(records[0].detail.clearance, 0.12);
    assert_eq!(records[1].id, 2);
    assert_eq!(records[1].kind, CollisionKind::GroundContact);
    assert_eq!((records[1].drone_a, records[1].drone_b), (Some(17), None));
    assert_eq!(records[1].detail.clearance, -0.2);
    assert_eq!(log.cumulative_ground_contacts(), 1);
}

#[test]
fn growing_or_moving_contact_is_a_new_incident() {
    let mut log = RunCollisionLog::new();
    log.observe(ground_observation(1, 1, Some(3)));
    log.observe(ground_observation(2, 3, Some(3)));
    log.observe(ground_observation(3, 3, Some(8)));
    log.observe(ground_observation(4, 2, Some(8)));
    assert_eq!(log.cumulative_ground_contacts(), 1 + 2 + 1);
    assert_eq!(log.records().len(), 3);
    assert_eq!(log.records()[1].count, 2);
}

#[test]
fn restarted_audit_sequence_starts_a_new_episode() {
    let mut log = RunCollisionLog::new();
    log.observe(observation(10, 1));
    log.observe(observation(11, 1));
    log.observe(observation(2, 1));
    assert_eq!(log.cumulative_drone_collisions(), 2);
    assert_eq!(log.records().len(), 2);
}

#[test]
fn clearing_forgets_the_run() {
    let mut log = RunCollisionLog::new();
    log.observe(observation(1, 1));
    log.clear();
    assert_eq!(log.records().len(), 0);
    assert_eq!(log.cumulative_drone_collisions(), 0);
    assert_eq!(log.dropped_records(), 0);
    log.observe(observation(1, 1));
    assert_eq!(log.records().len(), 1);
    assert_eq!(log.records()[0].id, 1);
}

#[test]
fn full_log_drops_the_oldest_record() {
    let mut log = RunCollisionLog::new();
    let episodes = MAX_RECORDS as u64 + 3;
    for episode in 0..episodes {
        assert!(log.has_headroom());
        log.observe(observation(2 * episode + 1, 1));
        log.observe(observation(2 * episode + 2, 0));
    }
    assert_eq!(log.records().len(), MAX_RECORDS);
    assert_eq!(log.dropped_records(), 3);
    assert_eq!(log.records()[0].id, 4);
    assert_eq!(log.records()[MAX_RECORDS - 1].id, episodes);
    assert_eq!(log.cumulative_drone_collisions(), episodes);
}

#[test]
fn an_unsafe_stretch_is_one_incident() {
    let mut history = IncidentHistory::new();
    assert!(history.record_step(true, 1, 0, 1_000));
    assert!(history.record_step(true, 2, 0, 2_000));
    assert!(!history.record_step(true, 0, 0, 3_000));
    assert!(history.record_step(true, 0, 1, 4_000));
    assert_eq!(history.incident_events, 2);
    assert_eq!(history.monitored_steps, 4);
    assert_eq!(history.last_incident_us, Some(4_000));
    history.clear_history();
    assert_eq!(history.incident_events, 0);
    assert_eq!(history.last_incident_us, None);
    assert_eq!(history.monitored_steps, 4);
    assert!(history.record_step(true, 0, 1, 5_000));
    assert_eq!(history.incident_events, 1);
}

#[test]
fn air_monitor_off_still_counts_ground_breaches() {
    let mut history = IncidentHistory::default();
    assert!(!history.record_step(false, 3, 0, 0));
    assert_eq!(history.incident_events, 0);
    assert!(history.record_step(false, 0, 2, 10));
    assert_eq!(history.incident_events, 1);
    assert_eq!(history.last_incident_us, Some(10));
}

#[test]
fn safety_panel_reports_the_active_audit() {
    assert_eq!(safety_status(false, false, true, true), SafetyStatus::Paused);
    assert_eq!(safety_status(false, true, false, true), SafetyStatus::Starting);
    assert_eq!(safety_status(true, false, false, true), SafetyStatus::Clear);
    assert_eq!(safety_status(false, true, true, false), SafetyStatus::Breach);
    assert_eq!(SafetyStatus::Breach.label(), "BREACH");
    assert_eq!(SafetyStatus::Clear.banner(false), "✓ GROUND CLEAR · DRONE MONITOR OFF");
    assert_eq!(SafetyStatus::Breach.banner(true), "⚠ DRONE / GROUND COLLISION RISK");
}

#[test]
fn counters_sum_every_record_ever_appended() {
    let mut log = RunCollisionLog::new();
    let mut appended_drone: u64 = 0;
    let mut appended_ground: u64 = 0;
    let episodes: u64 = 20;
    for episode in 0..episodes {
        log.observe(observation(3 * episode + 1, 2));
        log.observe(ground_observation(3 * episode + 2, 1, Some(7)));
        log.observe(ground_observation(3 * episode + 3, 0, None));
    }
    for record in log.records() {
        match record.kind {
            CollisionKind::DroneToDrone => appended_drone += record.count as u64,
            CollisionKind::GroundContact => appended_ground += record.count as u64,
        }
    }
    assert_eq!(log.records().len() as u64 + log.dropped_records(), 2 * episodes);
    assert!(log.records().len() <= MAX_RECORDS);
    assert!(log.records().windows(2).all(|pair| pair[0].id < pair[1].id));
    assert_eq!(log.cumulative_drone_collisions(), appended_drone);
    assert_eq!(log.cumulative_drone_collisions(), 2 * episodes);
    assert_eq!(log.cumulative_ground_contacts(), episodes);
    assert_eq!(log.cumulative_ground_contacts(), appended_ground);
    assert_eq!(log.dropped_records(), 0);
    assert!(rising_incident_count(3, 2, Some(1u32), Some(2u32)) <= 2);
}
