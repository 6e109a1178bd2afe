//! Sizing decisions of the GPU-resident fleet: formation ids, whether a fleet
//! fits the device, instance counts, compute dispatch sizes, correction passes
//! and body-mesh culling.

use vstd::prelude::*;
use crate::model::FormationKind;

verus! {

/// Bytes of one packed drone instance (four `vec4<f32>`).
pub const RAW_INSTANCE_BYTES: u64 = 64;

/// Threads per compute workgroup.
pub const WORKGROUP_SIZE: u64 = 64;

/// Device limits that decide whether a GPU-resident fleet fits.
#[derive(Clone, Copy, Debug, PartialEq, Eq)]
pub struct GpuLimits {
    pub max_buffer_size: u64,
    pub max_storage_buffer_binding_size: u32,
    pub max_compute_workgroups_per_dimension: u32,
}

/// Shader-side id of a formation.
pub open spec fn formation_id_spec(kind: FormationKind) -> u32 {
    match kind {
        FormationKind::LaunchGrid => 0,
        FormationKind::Chrysalis => 1,
        FormationKind::Heart => 2,
        FormationKind::Galaxy => 3,
        FormationKind::Cathedral => 4,
        FormationKind::Human => 5,
        FormationKind::Planet => 6,
        FormationKind::Infinity => 7,
        FormationKind::Lotus => 8,
        FormationKind::Crown => 9,
        FormationKind::EventHorizon => 10,
        FormationKind::Mandala => 11,
        FormationKind::Gyroscope => 12,
        FormationKind::Image => 13,
    }
}

pub fn formation_id(kind: FormationKind) -> (r: u32)
    ensures
        r == formation_id_spec(kind),
        kind == FormationKind::LaunchGrid ==> r == 0,
        kind == FormationKind::Image ==> r == 13,
        forall|k: int| 0 <= k < 12 && kind == #[trigger] FormationKind::SHOWCASE[k] ==> r == k + 1,
{
    proof {
        lemma_formation_ids_follow_showcase_order();
    }
    match kind {
        FormationKind::LaunchGrid => 0,
        FormationKind::Chrysalis => 1,
        FormationKind::Heart => 2,
        FormationKind::Galaxy => 3,
        FormationKind::Cathedral => 4,
        FormationKind::Human => 5,
        FormationKind::Planet => 6,
        FormationKind::Infinity => 7,
        FormationKind::Lotus => 8,
        FormationKind::Crown => 9,
        FormationKind::EventHorizon => 10,
        FormationKind::Mandala => 11,
        FormationKind::Gyroscope => 12,
        FormationKind::Image => 13,
    }
}

/// The shader numbers formations in show order: the launch grid is 0, the
/// built-in showcase formations follow as 1 to 12 in the order the default
/// show flies them, and the imported image is 13.
pub proof fn lemma_formation_ids_follow_showcase_order()
    ensures
        formation_id_spec(FormationKind::LaunchGrid) == 0,
        formation_id_spec(FormationKind::Image) == 13,
        forall|k: int| 0 <= k < 12 ==> formation_id_spec(#[trigger] FormationKind::SHOWCASE[k]) == k + 1,
{
    assert forall|k: int| 0 <= k < 12 implies formation_id_spec(#[trigger] FormationKind::SHOWCASE[k]) == k + 1 by {
        if k == 0 {} else if k == 1 {} else if k == 2 {} else if k == 3 {} else if k == 4 {} else if k == 5 {}
        else if k == 6 {} else if k == 7 {} else if k == 8 {} else if k == 9 {} else if k == 10 {} else {}
    }
}

/// Formations have distinct shader ids.
pub proof fn lemma_formation_ids_are_distinct(a: FormationKind, b: FormationKind)
    ensures
        formation_id_spec(a) == formation_id_spec(b) <==> a == b,
{
}

/// `2^k`.
pub open spec fn pow2(k: nat) -> nat
    decreases k,
{
    if k == 0 { 1 } else { 2 * pow2((k - 1) as nat) }
}

/// `p` is the smallest power of two that is at least `n`.
pub open spec fn is_next_power_of_two(n: int, p: int) -> bool {
    &&& exists|k: nat| pow2(k) == p
    &&& n <= p
    &&& (p == 1 || p / 2 < n)
}

/// Buffer slots reserved for a fleet: the next power of two of its size.
pub fn instance_capacity(fleet_count: usize) -> (r: u64)
    requires
        fleet_count <= 0x200_0000_0000_0000,
    ensures
        is_next_power_of_two(if fleet_count < 1 { 1 } else { fleet_count as int }, r as int),
        r <= 0x200_0000_0000_0000,
{
    let needed: u64 = if fleet_count < 1 { 1 } else { fleet_count as u64 };
    let mut capacity: u64 = 1;
    let ghost mut k: nat = 0;
    while capacity < needed
        invariant
            1 <= needed <= 0x200_0000_0000_0000,
            capacity == pow2(k),
            1 <= capacity,
            capacity == 1 || capacity / 2 < needed,
            capacity <= 0x200_0000_0000_0000,
        decreases 0x400_0000_0000_0000 - capacity,
    {
        proof {
            lemma_pow2_57();
            if capacity > 0x100_0000_0000_0000 {
                lemma_pow2_order(k, 57);
                lemma_pow2_facts(57);
            }
        }
        capacity = capacity * 2;
        proof {
            k = k + 1;
        }
    }
    capacity
}

/// Compute workgroups that cover a fleet, as the 32-bit dispatch count.
pub open spec fn workgroups_spec(fleet_count: int) -> u32 {
    let n = if fleet_count < 1 { 1 } else { fleet_count };
    (((n + 63) / 64) % 0x1_0000_0000) as u32
}

/// Workgroups of 64 threads that cover `fleet_count` drones (at least one),
/// as dispatched (32 bits).
pub fn workgroup_count(fleet_count: usize) -> (r: u32)
    ensures
        r == workgroups_spec(fleet_count as int),
{
    let n: u64 = if fleet_count < 1 { 1 } else { fleet_count as u64 };
    let groups = n / 64 + if n % 64 == 0 { 0 } else { 1 };
    assert(groups == (n + 63) / 64);
    let r = groups as u32;
    assert(r == groups % 0x1_0000_0000) by (bit_vector)
        requires
            r == groups as u32,
    ;
    r
}

/// Whether a GPU-resident fleet of `fleet_count` drones fits the device:
/// its instance buffer (capacity rounded up to a power of two) fits both
/// buffer limits and its dispatch fits the workgroup limit.
pub open spec fn fleet_fits_spec(limits: GpuLimits, capacity: int, fleet_count: int) -> bool {
    &&& capacity * RAW_INSTANCE_BYTES <= limits.max_buffer_size
    &&& capacity * RAW_INSTANCE_BYTES <= limits.max_storage_buffer_binding_size
    &&& workgroups_spec(fleet_count) <= limits.max_compute_workgroups_per_dimension
}

pub fn gpu_fleet_fits(limits: &GpuLimits, fleet_count: usize) -> (r: bool)
    requires
        fleet_count <= 0x200_0000_0000_0000,
    ensures
        exists|capacity: int|
            is_next_power_of_two(if fleet_count < 1 { 1 } else { fleet_count as int }, capacity) && r
                == fleet_fits_spec(*limits, capacity, fleet_count as int),
{
    let capacity = instance_capacity(fleet_count);
    let instance_bytes = capacity * RAW_INSTANCE_BYTES;
    let workgroups = workgroup_count(fleet_count);
    let r = instance_bytes <= limits.max_buffer_size && instance_bytes
        <= limits.max_storage_buffer_binding_size as u64 && workgroups
        <= limits.max_compute_workgroups_per_dimension;
    assert(is_next_power_of_two(if fleet_count < 1 { 1 } else { fleet_count as int }, capacity as int) && r
        == fleet_fits_spec(*limits, capacity as int, fleet_count as int));
    r
}

/// Virtual drones of a GPU-resident show: the request, kept within
/// 100 ..= 1,000,000.
pub fn gpu_instance_count(requested: usize) -> (r: usize)
    ensures
        r == (if requested < 100 { 100 } else if requested > 1_000_000 { 1_000_000 } else { requested as int }),
{
    if requested < 100 {
        100
    } else if requested > 1_000_000 {
        1_000_000
    } else {
        requested
    }
}

/// Ping-pong spatial-hash correction passes run per frame for a fleet.
pub open spec fn correction_passes_spec(instance_count: int) -> u32 {
    if instance_count <= 100_000 {
        18
    } else if instance_count <= 500_000 {
        12
    } else {
        8
    }
}

pub fn correction_pass_count(instance_count: usize) -> (r: u32)
    ensures
        r == correction_passes_spec(instance_count as int),
{
    if instance_count <= 100_000 {
        18
    } else if instance_count <= 500_000 {
        12
    } else {
        8
    }
}

/// Detailed quadcopter bodies are drawn up to 50,000 instances; above that
/// only light impostors are.
pub fn draws_drone_bodies(instance_count: usize) -> (r: bool)
    ensures
        r == (instance_count <= 50_000),
{
    instance_count <= 50_000
}

/// Correction runs eight to eighteen passes, and a denser fleet never gets
/// more passes than a sparser one.
pub proof fn lemma_correction_passes_bounded_and_monotone(sparse: int, dense: int)
    requires
        sparse <= dense,
    ensures
        8 <= correction_passes_spec(dense) <= correction_passes_spec(sparse) <= 18,
{
}

/// If a fleet fits the device, every smaller fleet fits too.
pub proof fn lemma_smaller_fleet_still_fits(
    limits: GpuLimits,
    small: int,
    small_capacity: int,
    large: int,
    large_capacity: int,
)
    requires
        1 <= small <= large,
        is_next_power_of_two(small, small_capacity),
        is_next_power_of_two(large, large_capacity),
        fleet_fits_spec(limits, large_capacity, large),
        large <= 0x200_0000_0000_0000,
    ensures
        fleet_fits_spec(limits, small_capacity, small),
{
    lemma_next_power_monotone(small, small_capacity, large, large_capacity);
    assert((small + 63) / 64 <= (large + 63) / 64);
}

proof fn lemma_pow2_57()
    ensures
        pow2(57) == 0x200_0000_0000_0000,
{
    reveal_with_fuel(pow2, 58);
}

/// Powers of two.
proof fn lemma_pow2_facts(k: nat)
    ensures
        pow2(k) >= 1,
        k > 0 ==> pow2(k) % 2 == 0 && pow2(k) / 2 == pow2((k - 1) as nat),
    decreases k,
{
    if k > 0 {
        lemma_pow2_facts((k - 1) as nat);
    }
}

/// Between two powers of two, the smaller divides into the larger by halving.
proof fn lemma_pow2_order(i: nat, j: nat)
    requires
        pow2(i) < pow2(j),
    ensures
        pow2(i) <= pow2(j) / 2,
        i < j,
    decreases j,
{
    lemma_pow2_facts(i);
    lemma_pow2_facts(j);
    if j == 0 {
    } else if i == 0 {
        assert(pow2(j) >= 2);
    } else {
        lemma_pow2_order((i - 1) as nat, (j - 1) as nat);
    }
}

/// The next power of two grows with its argument.
proof fn lemma_next_power_monotone(a: int, pa: int, b: int, pb: int)
    requires
        1 <= a <= b,
        is_next_power_of_two(a, pa),
        is_next_power_of_two(b, pb),
    ensures
        pa <= pb,
{
    if pa > pb {
        let i = choose|k: nat| pow2(k) == pb;
        let j = choose|k: nat| pow2(k) == pa;
        lemma_pow2_order(i, j);
        lemma_pow2_facts(j);
    }
}

} // verus!
