//! Fleet sizing across the two execution modes: each mode remembers its own
//! fleet size, switching modes restores the size last used in that mode, and
//! the GPU-resident mode flies only a small CPU proxy fleet.

use vstd::prelude::*;
use crate::model::FleetExecutionMode;

verus! {

/// Smallest fleet the editor offers.
pub const MIN_FLEET: usize = 100;

/// Largest fully audited (flight-validated) fleet.
pub const MAX_VALIDATED_FLEET: usize = 5_000;

/// Largest GPU-resident fleet.
pub const MAX_GPU_FLEET: usize = 1_000_000;

/// Default GPU-resident fleet.
pub const DEFAULT_GPU_FLEET: usize = 20_000;

/// Drones the CPU simulation flies while the GPU renders the show.
pub const GPU_PROXY_FLEET: usize = 384;

/// The fleet sizes of a session.
#[derive(Clone, Copy, Debug, PartialEq, Eq)]
pub struct FleetSizing {
    pub mode: FleetExecutionMode,
    /// Fleet size of the current mode.
    pub drone_count: usize,
    /// Fleet size remembered for flight-validated mode.
    pub validated_drone_count: usize,
    /// Fleet size remembered for GPU-resident mode.
    pub gpu_drone_count: usize,
}

/// Largest fleet of a mode.
pub open spec fn fleet_limit(mode: FleetExecutionMode) -> int {
    match mode {
        FleetExecutionMode::FlightValidated => MAX_VALIDATED_FLEET as int,
        FleetExecutionMode::GpuResident => MAX_GPU_FLEET as int,
    }
}

/// Drones the CPU simulation flies for a sizing.
pub open spec fn simulated_drones(s: FleetSizing) -> int {
    match s.mode {
        FleetExecutionMode::FlightValidated => s.drone_count as int,
        FleetExecutionMode::GpuResident => if s.drone_count < GPU_PROXY_FLEET { s.drone_count as int } else { GPU_PROXY_FLEET as int },
    }
}

/// The sizing after switching to `mode`: the current size is remembered for
/// the mode left (at most the validated limit when leaving GPU-resident
/// mode for the validated one's memory) and the new mode's size restored.
pub open spec fn switched(s: FleetSizing, mode: FleetExecutionMode) -> FleetSizing {
    if mode == s.mode {
        s
    } else {
        match mode {
            FleetExecutionMode::FlightValidated => FleetSizing {
                mode,
                drone_count: s.validated_drone_count,
                gpu_drone_count: s.drone_count,
                ..s
            },
            FleetExecutionMode::GpuResident => FleetSizing {
                mode,
                drone_count: s.gpu_drone_count,
                validated_drone_count: if s.drone_count < MAX_VALIDATED_FLEET { s.drone_count } else { MAX_VALIDATED_FLEET },
                ..s
            },
        }
    }
}

impl FleetSizing {
    /// Every size lies within its mode's range, and the current size is the
    /// current mode's.
    pub open spec fn wf(self) -> bool {
        &&& MIN_FLEET <= self.validated_drone_count <= MAX_VALIDATED_FLEET
        &&& MIN_FLEET <= self.gpu_drone_count <= MAX_GPU_FLEET
        &&& self.drone_count == match self.mode {
            FleetExecutionMode::FlightValidated => self.validated_drone_count,
            FleetExecutionMode::GpuResident => self.gpu_drone_count,
        }
    }

    /// Sizing at start-up: GPU-resident with 20,000 drones when the device
    /// supports it, else flight-validated with 5,000; a requested size is
    /// kept within the chosen mode's range.
    pub fn initial(gpu_resident: bool, requested: Option<usize>) -> (r: Self)
        ensures
            r.wf(),
            r.mode == (if gpu_resident { FleetExecutionMode::GpuResident } else { FleetExecutionMode::FlightValidated }),
            r.drone_count == match requested {
                None => if gpu_resident { DEFAULT_GPU_FLEET as int } else { MAX_VALIDATED_FLEET as int },
                Some(n) => if n < MIN_FLEET { MIN_FLEET as int } else if n > fleet_limit(r.mode) { fleet_limit(r.mode) } else { n as int },
            },
            gpu_resident ==> r.validated_drone_count == MAX_VALIDATED_FLEET,
            !gpu_resident ==> r.gpu_drone_count == DEFAULT_GPU_FLEET,
    {
        let limit = if gpu_resident { MAX_GPU_FLEET } else { MAX_VALIDATED_FLEET };
        let count = match requested {
            None => if gpu_resident { DEFAULT_GPU_FLEET } else { MAX_VALIDATED_FLEET },
            Some(n) => if n < MIN_FLEET { MIN_FLEET } else if n > limit { limit } else { n },
        };
        if gpu_resident {
            FleetSizing {
                mode: FleetExecutionMode::GpuResident,
                drone_count: count,
                validated_drone_count: MAX_VALIDATED_FLEET,
                gpu_drone_count: count,
            }
        } else {
            FleetSizing {
                mode: FleetExecutionMode::FlightValidated,
                drone_count: count,
                validated_drone_count: count,
                gpu_drone_count: DEFAULT_GPU_FLEET,
            }
        }
    }

    /// Largest fleet the current mode offers.
    pub fn count_limit(&self) -> (r: usize)
        ensures
            r == fleet_limit(self.mode),
    {
        match self.mode {
            FleetExecutionMode::FlightValidated => MAX_VALIDATED_FLEET,
            FleetExecutionMode::GpuResident => MAX_GPU_FLEET,
        }
    }

    /// Drones the CPU simulation flies: the whole fleet when validated, a
    /// proxy of at most 384 when GPU-resident.
    pub fn simulation_count(&self) -> (r: usize)
        ensures
            r == simulated_drones(*self),
    {
        match self.mode {
            FleetExecutionMode::FlightValidated => self.drone_count,
            FleetExecutionMode::GpuResident => if self.drone_count < GPU_PROXY_FLEET {
                self.drone_count
            } else {
                GPU_PROXY_FLEET
            },
        }
    }

    /// Sets the current mode's fleet size.
    pub fn set_drone_count(&mut self, count: usize)
        requires
            old(self).wf(),
            MIN_FLEET <= count <= fleet_limit(old(self).mode),
        ensures
            final(self).wf(),
            final(self).drone_count == count,
            final(self).mode == old(self).mode,
            old(self).mode == FleetExecutionMode::FlightValidated ==> final(self).gpu_drone_count == old(self).gpu_drone_count,
            old(self).mode == FleetExecutionMode::GpuResident ==> final(self).validated_drone_count
                == old(self).validated_drone_count,
    {
        self.drone_count = count;
        match self.mode {
            FleetExecutionMode::FlightValidated => {
                self.validated_drone_count = count;
            },
            FleetExecutionMode::GpuResident => {
                self.gpu_drone_count = count;
            },
        }
    }

    /// Switches execution mode. Returns the new simulation size when the
    /// mode changed, `None` when it was already current.
    pub fn switch_mode(&mut self, mode: FleetExecutionMode) -> (r: Option<usize>)
        requires
            old(self).wf(),
        ensures
            *final(self) == switched(*old(self), mode),
            final(self).wf(),
            r == (if mode == old(self).mode { None } else { Some(simulated_drones(*final(self)) as usize) }),
    {
        if mode == self.mode {
            return None;
        }
        match mode {
            FleetExecutionMode::FlightValidated => {
                self.gpu_drone_count = self.drone_count;
                self.drone_count = self.validated_drone_count;
            },
            FleetExecutionMode::GpuResident => {
                self.validated_drone_count = if self.drone_count < MAX_VALIDATED_FLEET {
                    self.drone_count
                } else {
                    MAX_VALIDATED_FLEET
                };
                self.drone_count = self.gpu_drone_count;
            },
        }
        self.mode = mode;
        Some(self.simulation_count())
    }
}

/// Most image slots sampled for a GPU-resident fleet.
pub const MAX_GPU_IMAGE_SLOTS: usize = 65_536;

/// Most image slots sampled for a flight-validated fleet.
pub const MAX_VALIDATED_IMAGE_SLOTS: usize = 20_000;

/// How many drones an imported image is laid out for: the GPU-resident
/// fleet, or the simulated fleet when flight-validated, kept within
/// `MIN_FLEET ..= 65,536` or `MIN_FLEET ..= 20,000` respectively.
pub fn image_slot_count(mode: FleetExecutionMode, fleet_count: usize, simulated_count: usize) -> (r: usize)
    ensures
        r == match mode {
            FleetExecutionMode::GpuResident => if fleet_count < MIN_FLEET {
                MIN_FLEET as int
            } else if fleet_count > MAX_GPU_IMAGE_SLOTS {
                MAX_GPU_IMAGE_SLOTS as int
            } else {
                fleet_count as int
            },
            FleetExecutionMode::FlightValidated => if simulated_count < MIN_FLEET {
                MIN_FLEET as int
            } else if simulated_count > MAX_VALIDATED_IMAGE_SLOTS {
                MAX_VALIDATED_IMAGE_SLOTS as int
            } else {
                simulated_count as int
            },
        },
        MIN_FLEET <= r <= MAX_GPU_IMAGE_SLOTS,
{
    let (count, limit) = match mode {
        FleetExecutionMode::GpuResident => (fleet_count, MAX_GPU_IMAGE_SLOTS),
        FleetExecutionMode::FlightValidated => (simulated_count, MAX_VALIDATED_IMAGE_SLOTS),
    };
    if count < MIN_FLEET {
        MIN_FLEET
    } else if count > limit {
        limit
    } else {
        count
    }
}

/// `c` is the ceiling of the square root of `n`: the least `c` with
/// `c * c >= n`.
pub open spec fn is_ceil_sqrt(c: int, n: int) -> bool {
    &&& c >= 0
    &&& c * c >= n
    &&& (c == 0 || (c - 1) * (c - 1) < n)
}

/// Columns and rows of the square launch pad grid for `count` drones: as
/// many columns as the ceiling of the square root of the fleet, and the
/// rows those columns need. Drone `i` takes pad column `i % columns`, row
/// `i / columns`.
pub fn launch_grid_shape(count: usize) -> (r: (usize, usize))
    requires
        count > 0,
    ensures
        is_ceil_sqrt(r.0 as int, count as int),
        r.0 >= 1,
        r.1 == (count + r.0 - 1) / r.0 as int,
        r.0 * r.1 >= count,
        (r.1 - 1) * r.0 < count,
{
    let n = count as u128;
    let mut low: u128 = 0;
    let mut high: u128 = n;
    assert(n * n >= n) by (nonlinear_arith)
        requires
            n >= 1,
    ;
    while high - low > 1
        invariant
            n == count,
            n >= 1,
            low < high <= n,
            low * low < n,
            high * high >= n,
        decreases high - low,
    {
        let middle = low + (high - low) / 2;
        assert(middle * middle <= n * n) by (nonlinear_arith)
            requires
                middle <= n,
        ;
        assert(n * n <= 0xffff_ffff_ffff_ffffu128 * 0xffff_ffff_ffff_ffffu128) by (nonlinear_arith)
            requires
                n <= 0xffff_ffff_ffff_ffffu128,
        ;
        if middle * middle >= n {
            high = middle;
        } else {
            low = middle;
        }
    }
    let columns = high as usize;
    assert(columns >= 1) by (nonlinear_arith)
        requires
            high * high >= n,
            n >= 1,
            columns == high,
    ;
    let rows = (count - 1) / columns + 1;
    proof {
        let c = columns as int;
        let k = count as int;
        assert(rows == (k + c - 1) / c) by (nonlinear_arith)
            requires
                c >= 1,
                k >= 1,
                rows == (k - 1) / c + 1,
        ;
        assert(c * rows >= k && (rows - 1) * c < k) by (nonlinear_arith)
            requires
                c >= 1,
                k >= 1,
                rows == (k - 1) / c + 1,
        ;
    }
    (columns, rows)
}

/// Every drone of the fleet has its own launch pad inside the grid.
pub proof fn lemma_launch_pads_fit_grid(i: int, j: int, count: int, columns: int, rows: int)
    requires
        columns >= 1,
        columns * rows >= count,
        0 <= i < count,
        0 <= j < count,
        i != j,
    ensures
        i / columns < rows,
        i % columns < columns,
        (i % columns, i / columns) != (j % columns, j / columns),
{
    assert(i / columns < rows) by (nonlinear_arith)
        requires
            columns >= 1,
            columns * rows >= count,
            0 <= i < count,
    ;
    assert(i == columns * (i / columns) + i % columns) by (nonlinear_arith)
        requires
            columns >= 1,
    ;
    assert(j == columns * (j / columns) + j % columns) by (nonlinear_arith)
        requires
            columns >= 1,
    ;
}

/// Switching to the other mode and back restores every fleet size.
pub proof fn lemma_switching_back_restores_sizes(s: FleetSizing, other: FleetExecutionMode)
    requires
        s.wf(),
        other != s.mode,
    ensures
        switched(switched(s, other), s.mode) == s,
        switched(s, other).wf(),
{
}

/// The CPU simulation never flies more than the fleet, nor more than 384
/// drones in GPU-resident mode.
pub proof fn lemma_simulation_within_fleet(s: FleetSizing)
    requires
        s.wf(),
    ensures
        simulated_drones(s) <= s.drone_count <= fleet_limit(s.mode),
        s.mode == FleetExecutionMode::GpuResident ==> simulated_drones(s) <= GPU_PROXY_FLEET,
{
}

} // verus!
