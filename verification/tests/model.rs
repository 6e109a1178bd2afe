use luma_swarm_studio::camera::CameraMode;
use luma_swarm_studio::model::{
    default_gpu_collision_correction, default_gpu_safety_audit, default_monitor_drone_separation,
    default_visualize_safety_alerts, FleetExecutionMode, FormationKind, GraphicsPreset,
};

#[test]
fn safety_toggles_default_on() {
    assert!(default_gpu_collision_correction());
    assert!(default_gpu_safety_audit());
    assert!(default_monitor_drone_separation());
    assert!(default_visualize_safety_alerts());
    assert_eq!(FleetExecutionMode::default(), FleetExecutionMode::FlightValidated);
}

#[test]
fn formations_have_names_and_glyphs() {
    assert_eq!(FormationKind::Chrysalis.label(), "Stellar chrysalis");
    assert_eq!(FormationKind::Human.label(), "Chromatic helix");
    assert_eq!(FormationKind::Heart.glyph(), "♥");
    assert_eq!(FormationKind::Image.glyph(), "▧");
    assert_eq!(FormationKind::SHOWCASE[..9], FormationKind::CORE_SHOWCASE);
    assert_eq!(FormationKind::SHOWCASE[9..], FormationKind::BONUS);
}

#[test]
fn modes_and_presets_have_labels() {
    assert_eq!(FleetExecutionMode::GpuResident.label(), "GPU resident");
    assert_eq!(FleetExecutionMode::FlightValidated.label(), "Flight validated");
    assert_eq!(GraphicsPreset::Cinematic.label(), "Cinematic");
    assert_eq!(GraphicsPreset::High.label(), "High");
    assert_eq!(CameraMode::FreeFly.label(), "Free-fly");
    assert_eq!(CameraMode::Showcase.label(), "Showcase");
}

const ALL_FORMATIONS: [FormationKind; 14] = [
    FormationKind::LaunchGrid,
    FormationKind::Chrysalis,
    FormationKind::Heart,
    FormationKind::Galaxy,
    FormationKind::Cathedral,
    FormationKind::Human,
    FormationKind::Planet,
    FormationKind::Infinity,
    FormationKind::Lotus,
    FormationKind::Crown,
    FormationKind::EventHorizon,
    FormationKind::Mandala,
    FormationKind::Gyroscope,
    FormationKind::Image,
];

#[test]
fn every_formation_has_its_own_label_and_glyph() {
    for (i, a) in ALL_FORMATIONS.iter().enumerate() {
        for b in &ALL_FORMATIONS[i + 1..] {
            assert_ne!(a.label(), b.label());
            assert_ne!(a.glyph(), b.glyph());
        }
    }
    assert_eq!(FormationKind::LaunchGrid.label(), "Launch grid");
    assert_eq!(FormationKind::EventHorizon.label(), "Event horizon");
    assert_eq!(FormationKind::Infinity.glyph(), "∞");
}
