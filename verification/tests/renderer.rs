use luma_swarm_studio::model::FormationKind;
use luma_swarm_studio::renderer::{
    correction_pass_count, draws_drone_bodies, formation_id, gpu_fleet_fits, gpu_instance_count, instance_capacity,
    workgroup_count, GpuLimits,
};

#[test]
fn formation_ids_are_stable_and_distinct() {
    assert_eq!(formation_id(FormationKind::LaunchGrid), 0);
    assert_eq!(formation_id(FormationKind::Heart), 2);
    assert_eq!(formation_id(FormationKind::Image), 13);
    let mut ids: Vec<u32> = FormationKind::SHOWCASE.iter().map(|&kind| formation_id(kind)).collect();
    ids.sort_unstable();
    ids.dedup();
    assert_eq!(ids.len(), 12);
}

#[test]
fn instance_buffers_grow_in_powers_of_two() {
    assert_eq!(instance_capacity(0), 1);
    assert_eq!(instance_capacity(1), 1);
    assert_eq!(instance_capacity(384), 512);
    assert_eq!(instance_capacity(512), 512);
    assert_eq!(instance_capacity(20_000), 32_768);
    assert_eq!(instance_capacity(1_000_000), 1_048_576);
}

#[test]
fn workgroups_cover_the_fleet() {
    assert_eq!(workgroup_count(0), 1);
    assert_eq!(workgroup_count(64), 1);
    assert_eq!(workgroup_count(65), 2);
    assert_eq!(workgroup_count(1_000_000), 15_625);
}

#[test]
fn gpu_residency_needs_room_for_the_instance_buffer_and_dispatch() {
    let limits = GpuLimits {
        max_buffer_size: 256 << 20,
        max_storage_buffer_binding_size: 128 << 20,
        max_compute_workgroups_per_dimension: 65_535,
    };
    assert!(gpu_fleet_fits(&limits, 1_000_000));
    let small = GpuLimits { max_storage_buffer_binding_size: 1 << 20, ..limits };
    assert!(gpu_fleet_fits(&small, 16_384));
    assert!(!gpu_fleet_fits(&small, 16_385));
    let few_groups = GpuLimits { max_compute_workgroups_per_dimension: 100, ..limits };
    assert!(gpu_fleet_fits(&few_groups, 6_400));
    assert!(!gpu_fleet_fits(&few_groups, 6_401));
}

#[test]
fn gpu_fleet_size_is_clamped() {
    assert_eq!(gpu_instance_count(5), 100);
    assert_eq!(gpu_instance_count(20_000), 20_000);
    assert_eq!(gpu_instance_count(5_000_000), 1_000_000);
}

#[test]
fn denser_fleets_get_fewer_correction_passes_and_no_bodies() {
    assert_eq!(correction_pass_count(20_000), 18);
    assert_eq!(correction_pass_count(100_001), 12);
    assert_eq!(correction_pass_count(1_000_000), 8);
    assert!(draws_drone_bodies(50_000));
    assert!(!draws_drone_bodies(50_001));
}
