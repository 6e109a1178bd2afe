//! Incident history of the CPU safety audit: an incident is a step that
//! turns unsafe after a safe one, so an unsafe stretch counts once.
//!
//! Times are whole microseconds of show time.

use vstd::prelude::*;

verus! {

/// How many audited steps there were, how many incidents began, and when
/// the latest one began.
#[derive(Clone, Copy, Debug, PartialEq, Eq, Structural)]
pub struct IncidentHistory {
    pub incident_events: u64,
    pub monitored_steps: u64,
    pub last_incident_us: Option<u64>,
    pub previous_step_unsafe: bool,
}

/// A step is unsafe when drones collide (and the air envelope is
/// monitored) or when any drone is below the ground clearance.
pub open spec fn step_is_unsafe(monitor_air: bool, collision_pairs: u32, ground_breaches: u32) -> bool {
    (monitor_air && collision_pairs > 0) || ground_breaches > 0
}

/// No step audited, no incident.
pub open spec fn fresh_history() -> IncidentHistory {
    IncidentHistory { incident_events: 0, monitored_steps: 0, last_incident_us: None, previous_step_unsafe: false }
}

/// The history after one more audited step.
pub open spec fn after_step(
    h: IncidentHistory,
    monitor_air: bool,
    collision_pairs: u32,
    ground_breaches: u32,
    show_time_us: u64,
) -> IncidentHistory {
    let unsafe_now = step_is_unsafe(monitor_air, collision_pairs, ground_breaches);
    let begins = unsafe_now && !h.previous_step_unsafe;
    IncidentHistory {
        incident_events: if begins { (h.incident_events + 1) as u64 } else { h.incident_events },
        monitored_steps: (h.monitored_steps + 1) as u64,
        last_incident_us: if begins { Some(show_time_us) } else { h.last_incident_us },
        previous_step_unsafe: unsafe_now,
    }
}

impl IncidentHistory {
    /// No step audited yet.
    pub fn new() -> (r: Self)
        ensures
            r == fresh_history(),
    {
        IncidentHistory { incident_events: 0, monitored_steps: 0, last_incident_us: None, previous_step_unsafe: false }
    }

    /// Accounts for one audited step and says whether it was unsafe.
    pub fn record_step(&mut self, monitor_air: bool, collision_pairs: u32, ground_breaches: u32, show_time_us: u64) -> (r: bool)
        requires
            old(self).incident_events < u64::MAX,
            old(self).monitored_steps < u64::MAX,
        ensures
            r == step_is_unsafe(monitor_air, collision_pairs, ground_breaches),
            *final(self) == after_step(*old(self), monitor_air, collision_pairs, ground_breaches, show_time_us),
            final(self).previous_step_unsafe == step_is_unsafe(monitor_air, collision_pairs, ground_breaches),
            final(self).monitored_steps == old(self).monitored_steps + 1,
    {
        let unsafe_now = (monitor_air && collision_pairs > 0) || ground_breaches > 0;
        if unsafe_now && !self.previous_step_unsafe {
            self.incident_events = self.incident_events + 1;
            self.last_incident_us = Some(show_time_us);
        }
        self.monitored_steps = self.monitored_steps + 1;
        self.previous_step_unsafe = unsafe_now;
        unsafe_now
    }

    /// Forgets the incidents (not the step count), as after a seek: the
    /// next unsafe step starts a new incident.
    pub fn clear_history(&mut self)
        ensures
            final(self).incident_events == 0,
            final(self).last_incident_us is None,
            !final(self).previous_step_unsafe,
            final(self).monitored_steps == old(self).monitored_steps,
    {
        self.incident_events = 0;
        self.last_incident_us = None;
        self.previous_step_unsafe = false;
    }
}

impl Default for IncidentHistory {
    fn default() -> (r: Self)
        ensures
            r == fresh_history(),
    {
        IncidentHistory::new()
    }
}

/// What the collision-safety panel reports.
#[derive(Clone, Copy, Debug, PartialEq, Eq, Structural)]
pub enum SafetyStatus {
    /// No audit runs: GPU preview with its audit switched off.
    Paused,
    /// The GPU audit is on but has not delivered a valid frame yet.
    Starting,
    Clear,
    Breach,
}

/// The panel status: paused without any audit, starting until the GPU
/// audit delivers, then clear or breach as the active audit reports.
pub open spec fn status_spec(cpu_telemetry: bool, gpu_audit_requested: bool, gpu_valid: bool, clear: bool) -> SafetyStatus {
    if !gpu_audit_requested && !cpu_telemetry {
        SafetyStatus::Paused
    } else if !(cpu_telemetry || (gpu_audit_requested && gpu_valid)) {
        SafetyStatus::Starting
    } else if clear {
        SafetyStatus::Clear
    } else {
        SafetyStatus::Breach
    }
}

/// Status of the collision-safety panel (see [`status_spec`]).
pub fn safety_status(cpu_telemetry: bool, gpu_audit_requested: bool, gpu_valid: bool, clear: bool) -> (r: SafetyStatus)
    ensures
        r == status_spec(cpu_telemetry, gpu_audit_requested, gpu_valid, clear),
{
    if !gpu_audit_requested && !cpu_telemetry {
        SafetyStatus::Paused
    } else if !(cpu_telemetry || (gpu_audit_requested && gpu_valid)) {
        SafetyStatus::Starting
    } else if clear {
        SafetyStatus::Clear
    } else {
        SafetyStatus::Breach
    }
}

impl SafetyStatus {
    pub open spec fn label_text(self) -> Seq<char> {
        match self {
            SafetyStatus::Paused => "PAUSED"@,
            SafetyStatus::Starting => "STARTING"@,
            SafetyStatus::Clear => "CLEAR"@,
            SafetyStatus::Breach => "BREACH"@,
        }
    }

    pub fn label(self) -> (r: &'static str)
        ensures
            r@ == self.label_text(),
    {
        match self {
            SafetyStatus::Paused => "PAUSED",
            SafetyStatus::Starting => "STARTING",
            SafetyStatus::Clear => "CLEAR",
            SafetyStatus::Breach => "BREACH",
        }
    }

    /// Banner line of the panel; a clear or breached audit also says
    /// whether drone separation is monitored.
    pub open spec fn banner_text(self, monitor_air: bool) -> Seq<char> {
        match self {
            SafetyStatus::Paused => "◇ GPU PREVIEW · AUDIT PAUSED"@,
            SafetyStatus::Starting => "◇ GPU AUDIT · WARMING UP"@,
            SafetyStatus::Clear => if monitor_air {
                "✓ NO DRONE COLLISION / GROUND CONTACT"@
            } else {
                "✓ GROUND CLEAR · DRONE MONITOR OFF"@
            },
            SafetyStatus::Breach => if monitor_air {
                "⚠ DRONE / GROUND COLLISION RISK"@
            } else {
                "⚠ GROUND CONTACT"@
            },
        }
    }

    pub fn banner(self, monitor_air: bool) -> (r: &'static str)
        ensures
            r@ == self.banner_text(monitor_air),
    {
        match self {
            SafetyStatus::Paused => "◇ GPU PREVIEW · AUDIT PAUSED",
            SafetyStatus::Starting => "◇ GPU AUDIT · WARMING UP",
            SafetyStatus::Clear => if monitor_air {
                "✓ NO DRONE COLLISION / GROUND CONTACT"
            } else {
                "✓ GROUND CLEAR · DRONE MONITOR OFF"
            },
            SafetyStatus::Breach => if monitor_air {
                "⚠ DRONE / GROUND COLLISION RISK"
            } else {
                "⚠ GROUND CONTACT"
            },
        }
    }
}

/// An unsafe stretch counts as one incident: a step that stays unsafe adds
/// none, a step that turns unsafe adds exactly one and stamps its time, and
/// a safe step adds none.
pub proof fn lemma_unsafe_stretch_counts_once(
    h: IncidentHistory,
    monitor_air: bool,
    collision_pairs: u32,
    ground_breaches: u32,
    show_time_us: u64,
)
    requires
        h.incident_events < u64::MAX,
        h.monitored_steps < u64::MAX,
    ensures
        ({
            let next = after_step(h, monitor_air, collision_pairs, ground_breaches, show_time_us);
            &&& next.monitored_steps == h.monitored_steps + 1
            &&& (h.previous_step_unsafe || !step_is_unsafe(monitor_air, collision_pairs, ground_breaches))
                ==> next.incident_events == h.incident_events && next.last_incident_us == h.last_incident_us
            &&& (!h.previous_step_unsafe && step_is_unsafe(monitor_air, collision_pairs, ground_breaches))
                ==> next.incident_events == h.incident_events + 1 && next.last_incident_us == Some(show_time_us)
        }),
{
}

/// Switching off the air monitor ignores drone pairs but keeps ground
/// monitoring: a ground breach is unsafe either way.
pub proof fn lemma_ground_monitoring_is_independent_of_air(collision_pairs: u32, ground_breaches: u32)
    ensures
        step_is_unsafe(false, collision_pairs, ground_breaches) <==> ground_breaches > 0,
        ground_breaches > 0 ==> step_is_unsafe(true, collision_pairs, ground_breaches),
{
}

/// The history after audited steps `steps`, each `(monitor_air,
/// collision_pairs, ground_breaches, show_time_us)`, in order.
pub open spec fn after_steps(h: IncidentHistory, steps: Seq<(bool, u32, u32, u64)>) -> IncidentHistory
    decreases steps.len(),
{
    if steps.len() == 0 {
        h
    } else {
        let s = steps.last();
        after_step(after_steps(h, steps.drop_last()), s.0, s.1, s.2, s.3)
    }
}

/// An unsafe stretch of any length is one incident: after a run of unsafe
/// steps the history counts one more incident than before (none when the
/// step before the run was already unsafe), stamped with the time of the
/// run's first step, and remembers that the last step was unsafe.
pub proof fn lemma_unsafe_run_is_one_incident(h: IncidentHistory, steps: Seq<(bool, u32, u32, u64)>)
    requires
        h.incident_events < u64::MAX,
        steps.len() >= 1,
        forall|i: int| 0 <= i < steps.len() ==> step_is_unsafe(#[trigger] steps[i].0, steps[i].1, steps[i].2),
    ensures
        after_steps(h, steps).previous_step_unsafe,
        after_steps(h, steps).incident_events == h.incident_events + if h.previous_step_unsafe { 0int } else { 1int },
        !h.previous_step_unsafe ==> after_steps(h, steps).last_incident_us == Some(steps[0].3),
        h.previous_step_unsafe ==> after_steps(h, steps).last_incident_us == h.last_incident_us,
    decreases steps.len(),
{
    if steps.len() > 1 {
        let rest = steps.drop_last();
        assert forall|i: int| 0 <= i < rest.len() implies step_is_unsafe(#[trigger] rest[i].0, rest[i].1, rest[i].2) by {
            assert(rest[i] == steps[i]);
        }
        lemma_unsafe_run_is_one_incident(h, rest);
        assert(rest[0] == steps[0]);
        assert(steps.last() == steps[steps.len() - 1]);
        assert(step_is_unsafe(steps[steps.len() - 1].0, steps[steps.len() - 1].1, steps[steps.len() - 1].2));
    } else {
        assert(steps.drop_last().len() == 0);
        assert(after_steps(h, steps.drop_last()) == h);
        assert(steps.last() == steps[0]);
        assert(step_is_unsafe(steps[0].0, steps[0].1, steps[0].2));
    }
}

} // verus!
