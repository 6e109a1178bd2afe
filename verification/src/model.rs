//! Shared vocabulary of formations, execution modes and graphics presets.

use vstd::prelude::*;

verus! {

/// Every formation the choreography system can fly.
#[derive(Clone, Copy, Debug, PartialEq, Eq, Hash, Structural)]
pub enum FormationKind {
    LaunchGrid,
    Chrysalis,
    Heart,
    Galaxy,
    Cathedral,
    Human,
    Planet,
    Infinity,
    Lotus,
    Crown,
    EventHorizon,
    Mandala,
    Gyroscope,
    Image,
}

impl FormationKind {
    /// The nine core formations of the default show, in show order.
    pub const CORE_SHOWCASE: [FormationKind; 9] = [
        FormationKind::Chrysalis,
        FormationKind::Heart,
        FormationKind::Galaxy,
        FormationKind::Cathedral,
        FormationKind::Human,
        FormationKind::Planet,
        FormationKind::Infinity,
        FormationKind::Lotus,
        FormationKind::Crown,
    ];

    /// The bonus formations that follow the core showcase.
    pub const BONUS: [FormationKind; 3] = [
        FormationKind::EventHorizon,
        FormationKind::Mandala,
        FormationKind::Gyroscope,
    ];

    /// Every built-in showcase formation (core followed by bonus).
    pub const SHOWCASE: [FormationKind; 12] = [
        FormationKind::Chrysalis,
        FormationKind::Heart,
        FormationKind::Galaxy,
        FormationKind::Cathedral,
        FormationKind::Human,
        FormationKind::Planet,
        FormationKind::Infinity,
        FormationKind::Lotus,
        FormationKind::Crown,
        FormationKind::EventHorizon,
        FormationKind::Mandala,
        FormationKind::Gyroscope,
    ];

    /// Display name of a formation.
    pub open spec fn label_text(self) -> Seq<char> {
        match self {
            FormationKind::LaunchGrid => "Launch grid"@,
            FormationKind::Chrysalis => "Stellar chrysalis"@,
            FormationKind::Heart => "Neon heart"@,
            FormationKind::Galaxy => "Spiral galaxy"@,
            FormationKind::Cathedral => "Prism cathedral"@,
            FormationKind::Human => "Chromatic helix"@,
            FormationKind::Planet => "Ringed planet"@,
            FormationKind::Infinity => "Infinity portal"@,
            FormationKind::Lotus => "Prismatic lotus"@,
            FormationKind::Crown => "Celestial crown"@,
            FormationKind::EventHorizon => "Event horizon"@,
            FormationKind::Mandala => "Spectral mandala"@,
            FormationKind::Gyroscope => "Chrono gyroscope"@,
            FormationKind::Image => "Imported image"@,
        }
    }

    pub fn label(self) -> (r: &'static str)
        ensures
            r@ == self.label_text(),
    {
        match self {
            FormationKind::LaunchGrid => "Launch grid",
            FormationKind::Chrysalis => "Stellar chrysalis",
            FormationKind::Heart => "Neon heart",
            FormationKind::Galaxy => "Spiral galaxy",
            FormationKind::Cathedral => "Prism cathedral",
            FormationKind::Human => "Chromatic helix",
            FormationKind::Planet => "Ringed planet",
            FormationKind::Infinity => "Infinity portal",
            FormationKind::Lotus => "Prismatic lotus",
            FormationKind::Crown => "Celestial crown",
            FormationKind::EventHorizon => "Event horizon",
            FormationKind::Mandala => "Spectral mandala",
            FormationKind::Gyroscope => "Chrono gyroscope",
            FormationKind::Image => "Imported image",
        }
    }

    /// Browser glyph of a formation.
    pub open spec fn glyph_text(self) -> Seq<char> {
        match self {
            FormationKind::LaunchGrid => "▦"@,
            FormationKind::Chrysalis => "◈"@,
            FormationKind::Heart => "♥"@,
            FormationKind::Galaxy => "✦"@,
            FormationKind::Cathedral => "⌑"@,
            FormationKind::Human => "◇"@,
            FormationKind::Planet => "⊚"@,
            FormationKind::Infinity => "∞"@,
            FormationKind::Lotus => "✺"@,
            FormationKind::Crown => "♕"@,
            FormationKind::EventHorizon => "◉"@,
            FormationKind::Mandala => "✹"@,
            FormationKind::Gyroscope => "◎"@,
            FormationKind::Image => "▧"@,
        }
    }

    pub fn glyph(self) -> (r: &'static str)
        ensures
            r@ == self.glyph_text(),
    {
        match self {
            FormationKind::LaunchGrid => "▦",
            FormationKind::Chrysalis => "◈",
            FormationKind::Heart => "♥",
            FormationKind::Galaxy => "✦",
            FormationKind::Cathedral => "⌑",
            FormationKind::Human => "◇",
            FormationKind::Planet => "⊚",
            FormationKind::Infinity => "∞",
            FormationKind::Lotus => "✺",
            FormationKind::Crown => "♕",
            FormationKind::EventHorizon => "◉",
            FormationKind::Mandala => "✹",
            FormationKind::Gyroscope => "◎",
            FormationKind::Image => "▧",
        }
    }
}

/// No two formations share a display name: the browser can tell every
/// formation apart by its label.
pub proof fn lemma_formation_labels_distinct(a: FormationKind, b: FormationKind)
    ensures
        a.label_text() == b.label_text() ==> a == b,
{
    reveal_strlit("Launch grid");
    reveal_strlit("Stellar chrysalis");
    reveal_strlit("Neon heart");
    reveal_strlit("Spiral galaxy");
    reveal_strlit("Prism cathedral");
    reveal_strlit("Chromatic helix");
    reveal_strlit("Ringed planet");
    reveal_strlit("Infinity portal");
    reveal_strlit("Prismatic lotus");
    reveal_strlit("Celestial crown");
    reveal_strlit("Event horizon");
    reveal_strlit("Spectral mandala");
    reveal_strlit("Chrono gyroscope");
    reveal_strlit("Imported image");
    if a.label_text() == b.label_text() {
        assert(a.label_text().len() == b.label_text().len());
        assert(a.label_text()[0] == b.label_text()[0]);
        assert(a.label_text()[1] == b.label_text()[1]);
        assert(a.label_text()[5] == b.label_text()[5]);
    }
}

/// No two formations share a browser glyph.
pub proof fn lemma_formation_glyphs_distinct(a: FormationKind, b: FormationKind)
    ensures
        a.glyph_text() == b.glyph_text() ==> a == b,
{
    reveal_strlit("▦");
    reveal_strlit("◈");
    reveal_strlit("♥");
    reveal_strlit("✦");
    reveal_strlit("⌑");
    reveal_strlit("◇");
    reveal_strlit("⊚");
    reveal_strlit("∞");
    reveal_strlit("✺");
    reveal_strlit("♕");
    reveal_strlit("◉");
    reveal_strlit("✹");
    reveal_strlit("◎");
    reveal_strlit("▧");
    if a.glyph_text() == b.glyph_text() {
        assert(a.glyph_text()[0] == b.glyph_text()[0]);
    }
}

/// Where the fleet is flown: audited on the CPU or generated on the GPU.
#[derive(Clone, Copy, Debug, PartialEq, Eq, Structural)]
pub enum FleetExecutionMode {
    FlightValidated,
    GpuResident,
}

impl Default for FleetExecutionMode {
    fn default() -> (r: Self)
        ensures
            r == FleetExecutionMode::FlightValidated,
    {
        FleetExecutionMode::FlightValidated
    }
}

impl FleetExecutionMode {
    pub open spec fn label_text(self) -> Seq<char> {
        match self {
            FleetExecutionMode::FlightValidated => "Flight validated"@,
            FleetExecutionMode::GpuResident => "GPU resident"@,
        }
    }

    pub fn label(self) -> (r: &'static str)
        ensures
            r@ == self.label_text(),
    {
        match self {
            FleetExecutionMode::FlightValidated => "Flight validated",
            FleetExecutionMode::GpuResident => "GPU resident",
        }
    }
}

/// Serde default of the GPU collision-correction toggle: enabled.
pub fn default_gpu_collision_correction() -> (r: bool)
    ensures
        r,
{
    true
}

/// Serde default of the GPU safety-audit toggle: enabled.
pub fn default_gpu_safety_audit() -> (r: bool)
    ensures
        r,
{
    true
}

/// Serde default of the drone-separation monitor: enabled.
pub fn default_monitor_drone_separation() -> (r: bool)
    ensures
        r,
{
    true
}

/// Serde default of the amber/red alert colouring: enabled.
pub fn default_visualize_safety_alerts() -> (r: bool)
    ensures
        r,
{
    true
}

/// Look presets of the renderer.
#[derive(Clone, Copy, Debug, PartialEq, Eq, Structural)]
pub enum GraphicsPreset {
    Low,
    Medium,
    High,
    Cinematic,
    Custom,
}

impl GraphicsPreset {
    pub open spec fn label_text(self) -> Seq<char> {
        match self {
            GraphicsPreset::Low => "Low"@,
            GraphicsPreset::Medium => "Medium"@,
            GraphicsPreset::High => "High"@,
            GraphicsPreset::Cinematic => "Cinematic"@,
            GraphicsPreset::Custom => "Custom"@,
        }
    }

    pub fn label(self) -> (r: &'static str)
        ensures
            r@ == self.label_text(),
    {
        match self {
            GraphicsPreset::Low => "Low",
            GraphicsPreset::Medium => "Medium",
            GraphicsPreset::High => "High",
            GraphicsPreset::Cinematic => "Cinematic",
            GraphicsPreset::Custom => "Custom",
        }
    }
}

} // verus!
