//! Camera modes offered by the viewport rig.

use vstd::prelude::*;

verus! {

/// How the viewport camera is driven.
#[derive(Clone, Copy, Debug, PartialEq, Eq, Structural)]
pub enum CameraMode {
    Showcase,
    Orbit,
    FreeFly,
}

impl CameraMode {
    pub open spec fn label_text(self) -> Seq<char> {
        match self {
            CameraMode::Showcase => "Showcase"@,
            CameraMode::Orbit => "Orbit"@,
            CameraMode::FreeFly => "Free-fly"@,
        }
    }

    pub fn label(self) -> (r: &'static str)
        ensures
            r@ == self.label_text(),
    {
        match self {
            CameraMode::Showcase => "Showcase",
            CameraMode::Orbit => "Orbit",
            CameraMode::FreeFly => "Free-fly",
        }
    }
}

} // verus!
