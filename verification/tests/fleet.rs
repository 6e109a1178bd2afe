use luma_swarm_studio::fleet::{
    image_slot_count, launch_grid_shape, FleetSizing, DEFAULT_GPU_FLEET, GPU_PROXY_FLEET, MAX_GPU_FLEET, MAX_VALIDATED_FLEET, MIN_FLEET,
};
use luma_swarm_studio::model::FleetExecutionMode;

#[test]
fn start_up_prefers_gpu_residency_when_supported() {
    let gpu = FleetSizing::initial(true, None);
    assert_eq!(gpu.mode, FleetExecutionMode::GpuResident);
    assert_eq!(gpu.drone_count, DEFAULT_GPU_FLEET);
    assert_eq!(gpu.simulation_count(), GPU_PROXY_FLEET);
    assert_eq!(gpu.count_limit(), MAX_GPU_FLEET);
    let cpu = FleetSizing::initial(false, None);
    assert_eq!(cpu.mode, FleetExecutionMode::FlightValidated);
    assert_eq!(cpu.drone_count, MAX_VALIDATED_FLEET);
    assert_eq!(cpu.simulation_count(), MAX_VALIDATED_FLEET);
    assert_eq!(FleetSizing::initial(false, Some(9_000)).drone_count, MAX_VALIDATED_FLEET);
    assert_eq!(FleetSizing::initial(true, Some(3)).drone_count, MIN_FLEET);
}

#[test]
fn switching_modes_remembers_each_size() {
    let mut sizing = FleetSizing::initial(true, Some(250_000));
    assert_eq!(sizing.switch_mode(FleetExecutionMode::GpuResident), None);
    assert_eq!(sizing.switch_mode(FleetExecutionMode::FlightValidated), Some(MAX_VALIDATED_FLEET));
    sizing.set_drone_count(1_200);
    assert_eq!(sizing.switch_mode(FleetExecutionMode::GpuResident), Some(GPU_PROXY_FLEET));
    assert_eq!(sizing.drone_count, 250_000);
    assert_eq!(sizing.switch_mode(FleetExecutionMode::FlightValidated), Some(1_200));
    assert_eq!(sizing.gpu_drone_count, 250_000);
}

#[test]
fn small_gpu_fleets_are_simulated_whole() {
    let sizing = FleetSizing::initial(true, Some(150));
    assert_eq!(sizing.simulation_count(), 150);
}

#[test]
fn launch_grid_is_as_square_as_possible() {
    assert_eq!(launch_grid_shape(1), (1, 1));
    assert_eq!(launch_grid_shape(2), (2, 1));
    assert_eq!(launch_grid_shape(384), (20, 20));
    assert_eq!(launch_grid_shape(400), (20, 20));
    assert_eq!(launch_grid_shape(401), (21, 20));
    assert_eq!(launch_grid_shape(5_000), (71, 71));
    assert_eq!(launch_grid_shape(1_000_000), (1_000, 1_000));
    for count in 1..2_000usize {
        let (columns, rows) = launch_grid_shape(count);
        assert_eq!(columns, (count as f32).sqrt().ceil() as usize);
        assert_eq!(rows, count.div_ceil(columns));
    }
}

#[test]
fn imported_images_are_sampled_for_the_flying_fleet() {
    assert_eq!(image_slot_count(FleetExecutionMode::GpuResident, 20_000, 384), 20_000);
    assert_eq!(image_slot_count(FleetExecutionMode::GpuResident, 1_000_000, 384), 65_536);
    assert_eq!(image_slot_count(FleetExecutionMode::FlightValidated, 5_000, 5_000), 5_000);
    assert_eq!(image_slot_count(FleetExecutionMode::FlightValidated, 5_000, 40), 100);
}
