//! Slot assignment for large fleets: Morton ordering of both point clouds,
//! order-preserving matching, then local swaps that the caller approves.

use vstd::prelude::*;

verus! {

/// The three bits of Morton digit `k`: bit `k` of `x`, `y` and `z`.
pub open spec fn morton_digit(x: u64, y: u64, z: u64, k: u64) -> u64 {
    ((x >> k) & 1) | (((y >> k) & 1) << 1u64) | (((z >> k) & 1) << 2u64)
}

proof fn lemma_digit_shift(x: u64, y: u64, z: u64, b: u64)
    by (bit_vector)
    requires
        b < 16,
    ensures
        ((x >> b) & 1) << (3 * b) | ((y >> b) & 1) << (3 * b + 1) | ((z >> b) & 1) << (3 * b + 2)
            == morton_digit(x, y, z, b) << (3 * b),
        morton_digit(x, y, z, b) < 8,
{
}

proof fn lemma_append_digit(r: u64, d: u64, s: u64)
    by (bit_vector)
    requires
        s <= 45,
        r < (1u64 << s),
        d < 8,
    ensures
        (r | (d << s)) < (1u64 << (s + 3)),
        ((r | (d << s)) >> s) & 7 == d,
{
}

proof fn lemma_append_keeps_digit(r: u64, d: u64, s: u64, t: u64)
    by (bit_vector)
    requires
        s <= 45,
        t + 3 <= s,
        r < (1u64 << s),
        d < 8,
    ensures
        ((r | (d << s)) >> t) & 7 == (r >> t) & 7,
{
}

/// Interleaves the low 16 bits of three coordinates into a 48-bit Morton
/// key: digit `k` (bits `3k..3k+3`) holds bit `k` of `x`, `y` and `z`.
pub fn morton_interleave(x: u64, y: u64, z: u64) -> (r: u64)
    requires
        x < 0x1_0000,
        y < 0x1_0000,
        z < 0x1_0000,
    ensures
        r < 0x1_0000_0000_0000,
        forall|k: u64| k < 16 ==> (#[trigger] (r >> (3 * k)) & 7) == morton_digit(x, y, z, k),
{
    let mut result: u64 = 0;
    let mut bit: u64 = 0;
    assert((1u64 << 0u64) == 1) by (bit_vector);
    while bit < 16
        invariant
            bit <= 16,
            result < (1u64 << (3 * bit)),
            forall|k: u64| k < bit ==> (#[trigger] (result >> (3 * k)) & 7) == morton_digit(x, y, z, k),
        decreases 16 - bit,
    {
        proof {
            lemma_digit_shift(x, y, z, bit);
        }
        let ghost before = result;
        let ghost d = morton_digit(x, y, z, bit);
        result = result | (((x >> bit) & 1) << (bit * 3));
        result = result | (((y >> bit) & 1) << (bit * 3 + 1));
        result = result | (((z >> bit) & 1) << (bit * 3 + 2));
        proof {
            assert(result == before | (d << (3 * bit))) by (bit_vector)
                requires
                    result == ((before | (((x >> bit) & 1) << (bit * 3))) | (((y >> bit) & 1) << (bit * 3 + 1)))
                        | (((z >> bit) & 1) << (bit * 3 + 2)),
                    ((x >> bit) & 1) << (3 * bit) | ((y >> bit) & 1) << (3 * bit + 1) | ((z >> bit) & 1) << (3
                        * bit + 2) == d << (3 * bit),
                    bit < 16,
            ;
            lemma_append_digit(before, d, (3 * bit) as u64);
            assert forall|k: u64| k < bit + 1 implies (#[trigger] (result >> (3 * k)) & 7) == morton_digit(x, y, z, k) by {
                if k < bit {
                    lemma_append_keeps_digit(before, d, (3 * bit) as u64, (3 * k) as u64);
                }
            }
        }
        bit = bit + 1;
    }
    assert((1u64 << 48u64) == 0x1_0000_0000_0000) by (bit_vector);
    result
}

/// `r` assigns each of `n` sources a distinct destination among `0..n`.
pub open spec fn is_permutation(r: Seq<usize>, n: int) -> bool {
    &&& r.len() == n
    &&& forall|i: int| 0 <= i < n ==> #[trigger] r[i] < n
    &&& forall|i: int, j: int| 0 <= i < n && 0 <= j < n && i != j ==> r[i] != r[j]
    &&& forall|v: usize| v < n ==> #[trigger] r.contains(v)
}

/// `order` lists `0..n` by nondecreasing key.
pub open spec fn is_key_order(order: Seq<usize>, keys: Seq<u64>) -> bool {
    &&& is_permutation(order, keys.len() as int)
    &&& forall|i: int, j: int| 0 <= i < j < order.len() ==> keys[order[i] as int] <= keys[order[j] as int]
}

/// Sorts the identity ordering `0..keys.len()` by key with
/// `slice::sort_unstable_by_key`: the result lists every index once, by
/// nondecreasing key (the order among equal keys is left open).
#[verifier::external_body]
fn sort_by_key(order: &mut Vec<usize>, keys: &[u64])
    requires
        old(order).len() == keys.len(),
        forall|i: int| 0 <= i < old(order).len() ==> #[trigger] old(order)@[i] == i,
    ensures
        is_key_order(final(order)@, keys@),
{
    order.sort_unstable_by_key(|&index| keys[index]);
}

fn key_order(keys: &[u64]) -> (r: Vec<usize>)
    ensures
        is_key_order(r@, keys@),
{
    let mut order: Vec<usize> = Vec::new();
    let mut i: usize = 0;
    while i < keys.len()
        invariant
            0 <= i <= keys.len(),
            order.len() == i,
            forall|k: int| 0 <= k < i ==> #[trigger] order@[k] == k,
        decreases keys.len() - i,
    {
        order.push(i);
        i = i + 1;
    }
    sort_by_key(&mut order, keys);
    order
}

/// Matches the `k`-th source by key with the `k`-th destination by key.
pub open spec fn matches_key_orders(r: Seq<usize>, source_order: Seq<usize>, destination_order: Seq<usize>) -> bool {
    forall|k: int| 0 <= k < source_order.len() ==> #[trigger] r[source_order[k] as int] == destination_order[k]
}

/// Stride of local swap pass `p` (0..5): 1, 2, 4, 8, 16.
pub open spec fn pass_stride(p: int) -> int {
    if p == 0 { 1 } else if p == 1 { 2 } else if p == 2 { 4 } else if p == 3 { 8 } else { 16 }
}

/// Number of positions a swap pass of stride `stride` visits among `n`
/// sources.
pub open spec fn pass_len(n: int, stride: int) -> int {
    if n > stride { n - stride } else { 0 }
}

/// The swap steps of the first `passes` passes, in order: `(stride,
/// position)`, comparing the sources at `position` and `position + stride`
/// of the source order.
pub open spec fn swap_schedule(n: int, passes: int) -> Seq<(int, int)>
    decreases passes,
{
    if passes <= 0 {
        Seq::empty()
    } else {
        let stride = pass_stride(passes - 1);
        swap_schedule(n, passes - 1) + Seq::new(pass_len(n, stride) as nat, |j: int| (stride, j))
    }
}

/// The assignment after the swap steps `steps` from `start`, where step `k`
/// exchanges the destinations of the two compared sources exactly when
/// `decisions[k]` holds.
pub open spec fn swapped(start: Seq<usize>, order: Seq<usize>, steps: Seq<(int, int)>, decisions: Seq<bool>) -> Seq<usize>
    decreases steps.len(),
{
    if steps.len() == 0 || decisions.len() != steps.len() {
        start
    } else {
        let before = swapped(start, order, steps.drop_last(), decisions.drop_last());
        let a = order[steps.last().1] as int;
        let b = order[steps.last().1 + steps.last().0] as int;
        if decisions.last() {
            before.update(a, before[b]).update(b, before[a])
        } else {
            before
        }
    }
}

/// Every decision is an answer `improves` may give to its step: asked about
/// the two compared sources and their destinations at that point.
pub open spec fn approvals_given<F: Fn(usize, usize, usize, usize) -> bool>(
    improves: F,
    start: Seq<usize>,
    order: Seq<usize>,
    steps: Seq<(int, int)>,
    decisions: Seq<bool>,
) -> bool {
    &&& decisions.len() == steps.len()
    &&& forall|k: int| 0 <= k < steps.len() ==> #[trigger] swap_answered(improves, start, order, steps, decisions, k)
}

/// `improves` may answer `decisions[k]` to step `k`.
pub open spec fn swap_answered<F: Fn(usize, usize, usize, usize) -> bool>(
    improves: F,
    start: Seq<usize>,
    order: Seq<usize>,
    steps: Seq<(int, int)>,
    decisions: Seq<bool>,
    k: int,
) -> bool {
    let current = swapped(start, order, steps.take(k), decisions.take(k));
    let a = order[steps[k].1];
    let b = order[steps[k].1 + steps[k].0];
    improves.ensures((a, b, current[a as int], current[b as int]), decisions[k])
}

/// `r` is the Morton matching for some key orders of both sides, followed by
/// the five swap passes with answers `improves` may give.
pub open spec fn explained_by<F: Fn(usize, usize, usize, usize) -> bool>(
    r: Seq<usize>,
    source_keys: Seq<u64>,
    destination_keys: Seq<u64>,
    improves: F,
    source_order: Seq<usize>,
    destination_order: Seq<usize>,
    matched: Seq<usize>,
    decisions: Seq<bool>,
) -> bool {
    let steps = swap_schedule(source_keys.len() as int, 5);
    &&& is_key_order(source_order, source_keys)
    &&& is_key_order(destination_order, destination_keys)
    &&& matched.len() == source_keys.len()
    &&& matches_key_orders(matched, source_order, destination_order)
    &&& approvals_given(improves, matched, source_order, steps, decisions)
    &&& r == swapped(matched, source_order, steps, decisions)
}

/// Assigns every source a destination so that the `k`-th source in Morton
/// order takes the `k`-th destination in Morton order, then runs local swap
/// passes (strides 1, 2, 4, 8, 16 along the source order) that exchange the
/// destinations of two sources `a`, `b` whenever `improves(a, b, result[a],
/// result[b])` approves. The result is exactly that matching (for some key
/// order of equal keys) after the approved swaps, in pass order
/// ([`explained_by`]); it is always a one-to-one assignment, and when no
/// swap is approved a source with a smaller key never gets a destination
/// with a larger key than a source with a larger key.
pub fn scalable_spatial_assignment<F: Fn(usize, usize, usize, usize) -> bool>(
    source_keys: &[u64],
    destination_keys: &[u64],
    improves: F,
) -> (r: Vec<usize>)
    requires
        source_keys.len() == destination_keys.len(),
        forall|a: usize, b: usize, da: usize, db: usize| #[trigger] improves.requires((a, b, da, db)),
    ensures
        is_permutation(r@, source_keys.len() as int),
        exists|so: Seq<usize>, dor: Seq<usize>, matched: Seq<usize>, decisions: Seq<bool>|
            #[trigger] explained_by(r@, source_keys@, destination_keys@, improves, so, dor, matched, decisions),
        (forall|a: usize, b: usize, da: usize, db: usize, out: bool|
            #[trigger] improves.ensures((a, b, da, db), out) ==> !out) ==> forall|i: int, j: int|
            0 <= i < r.len() && 0 <= j < r.len() && source_keys@[i] < source_keys@[j]
                ==> destination_keys@[r@[i] as int] <= destination_keys@[r@[j] as int],
{
    let n = source_keys.len();
    let source_order = key_order(source_keys);
    let destination_order = key_order(destination_keys);
    let mut result: Vec<usize> = Vec::new();
    let mut i: usize = 0;
    while i < n
        invariant
            0 <= i <= n,
            result.len() == i,
            forall|k: int| 0 <= k < i ==> #[trigger] result@[k] == 0,
        decreases n - i,
    {
        result.push(0);
        i = i + 1;
    }
    let mut k: usize = 0;
    while k < n
        invariant
            n == source_keys.len(),
            n == destination_keys.len(),
            is_key_order(source_order@, source_keys@),
            is_key_order(destination_order@, destination_keys@),
            0 <= k <= n,
            result.len() == n,
            forall|j: int| 0 <= j < k ==> #[trigger] result@[source_order@[j] as int] == destination_order@[j],
        decreases n - k,
    {
        let s = source_order[k];
        let ghost before = result@;
        result.set(s, destination_order[k]);
        assert forall|j: int| 0 <= j < k + 1 implies #[trigger] result@[source_order@[j] as int] == destination_order@[j] by {
            if j < k {
                assert(source_order@[j] != source_order@[k as int]);
            }
        }
        k = k + 1;
    }
    proof {
        lemma_matching_is_permutation(result@, source_order@, destination_order@, n as int);
        lemma_matching_preserves_order(result@, source_order@, destination_order@, source_keys@, destination_keys@);
    }
    let ghost matched = result@;
    let ghost mut steps: Seq<(int, int)> = Seq::empty();
    let ghost mut decisions: Seq<bool> = Seq::empty();
    let strides: [usize; 5] = [1, 2, 4, 8, 16];
    let mut pass: usize = 0;
    while pass < 5
        invariant
            n == source_keys.len(),
            is_key_order(source_order@, source_keys@),
            is_permutation(result@, n as int),
            forall|a: usize, b: usize, da: usize, db: usize| #[trigger] improves.requires((a, b, da, db)),
            (forall|a: usize, b: usize, da: usize, db: usize, out: bool|
                #[trigger] improves.ensures((a, b, da, db), out) ==> !out) ==> result@ == matched,
            strides@ == seq![1usize, 2, 4, 8, 16],
            0 <= pass <= 5,
            steps == swap_schedule(n as int, pass as int),
            approvals_given(improves, matched, source_order@, steps, decisions),
            result@ == swapped(matched, source_order@, steps, decisions),
        decreases 5 - pass,
    {
        let stride = strides[pass];
        assert(stride == pass_stride(pass as int));
        let last = if n > stride { n - stride } else { 0 };
        let ghost pass_start = steps;
        let mut position: usize = 0;
        while position < last
            invariant
                n == source_keys.len(),
                last <= n,
                last == 0 || last + stride == n,
                last == pass_len(n as int, stride as int),
                is_key_order(source_order@, source_keys@),
                is_permutation(result@, n as int),
                forall|a: usize, b: usize, da: usize, db: usize| #[trigger] improves.requires((a, b, da, db)),
                (forall|a: usize, b: usize, da: usize, db: usize, out: bool|
                    #[trigger] improves.ensures((a, b, da, db), out) ==> !out) ==> result@ == matched,
                0 <= position <= last,
                steps == pass_start + Seq::new(position as nat, |j: int| (stride as int, j)),
                approvals_given(improves, matched, source_order@, steps, decisions),
                result@ == swapped(matched, source_order@, steps, decisions),
            decreases last - position,
        {
            let a = source_order[position];
            let b = source_order[position + stride];
            let da = result[a];
            let db = result[b];
            let approved = improves(a, b, da, db);
            let ghost before = result@;
            if approved {
                result.set(a, db);
                result.set(b, da);
                proof {
                    lemma_swap_keeps_permutation(before, a as int, b as int, n as int);
                    assert(result@ =~= before.update(a as int, before[b as int]).update(b as int, before[a as int]));
                }
            }
            proof {
                let old_steps = steps;
                let old_decisions = decisions;
                steps = steps.push((stride as int, position as int));
                decisions = decisions.push(approved);
                assert(steps.drop_last() =~= old_steps);
                assert(decisions.drop_last() =~= old_decisions);
                assert(steps =~= pass_start + Seq::new((position + 1) as nat, |j: int| (stride as int, j)));
                assert forall|k: int| 0 <= k < steps.len() implies #[trigger] swap_answered(
                    improves,
                    matched,
                    source_order@,
                    steps,
                    decisions,
                    k,
                ) by {
                    if k < old_steps.len() {
                        assert(steps.take(k) =~= old_steps.take(k));
                        assert(decisions.take(k) =~= old_decisions.take(k));
                        assert(swap_answered(improves, matched, source_order@, old_steps, old_decisions, k));
                    } else {
                        assert(steps.take(k) =~= old_steps);
                        assert(decisions.take(k) =~= old_decisions);
                    }
                }
            }
            position = position + 1;
        }
        proof {
            assert(steps =~= swap_schedule(n as int, pass + 1));
        }
        pass = pass + 1;
    }
    proof {
        assert(explained_by(result@, source_keys@, destination_keys@, improves, source_order@, destination_order@, matched, decisions));
    }
    result
}

proof fn position_of(s: Seq<usize>, v: usize) -> (k: int)
    requires
        s.contains(v),
    ensures
        0 <= k < s.len(),
        s[k] == v,
{
    choose|k: int| 0 <= k < s.len() && s[k] == v
}

proof fn lemma_matching_is_permutation(r: Seq<usize>, so: Seq<usize>, dor: Seq<usize>, n: int)
    requires
        r.len() == n,
        n <= usize::MAX,
        is_permutation(so, n),
        is_permutation(dor, n),
        matches_key_orders(r, so, dor),
    ensures
        is_permutation(r, n),
{
    assert forall|i: int| 0 <= i < n implies #[trigger] r[i] < n by {
        let k = position_of(so, i as usize);
        assert(r[so[k] as int] == dor[k]);
    }
    assert forall|i: int, j: int| 0 <= i < n && 0 <= j < n && i != j implies r[i] != r[j] by {
        let ki = position_of(so, i as usize);
        let kj = position_of(so, j as usize);
        assert(r[so[ki] as int] == dor[ki]);
        assert(r[so[kj] as int] == dor[kj]);
    }
    assert forall|v: usize| v < n implies #[trigger] r.contains(v) by {
        let k = position_of(dor, v);
        assert(r[so[k] as int] == dor[k]);
        assert(0 <= so[k] < n);
    }
}

proof fn lemma_matching_preserves_order(
    r: Seq<usize>,
    so: Seq<usize>,
    dor: Seq<usize>,
    sk: Seq<u64>,
    dk: Seq<u64>,
)
    requires
        is_key_order(so, sk),
        is_key_order(dor, dk),
        sk.len() == dk.len(),
        sk.len() <= usize::MAX,
        r.len() == sk.len(),
        matches_key_orders(r, so, dor),
    ensures
        forall|i: int, j: int|
            0 <= i < r.len() && 0 <= j < r.len() && sk[i] < sk[j] ==> dk[r[i] as int] <= dk[r[j] as int],
{
    let n = sk.len() as int;
    assert forall|i: int, j: int| 0 <= i < r.len() && 0 <= j < r.len() && sk[i] < sk[j] implies dk[r[i] as int]
        <= dk[r[j] as int] by {
        let ki = position_of(so, i as usize);
        let kj = position_of(so, j as usize);
        assert(r[so[ki] as int] == dor[ki]);
        assert(r[so[kj] as int] == dor[kj]);
        if kj < ki {
            assert(sk[so[kj] as int] <= sk[so[ki] as int]);
        }
    }
}

proof fn lemma_swap_keeps_permutation(r: Seq<usize>, a: int, b: int, n: int)
    requires
        is_permutation(r, n),
        0 <= a < n,
        0 <= b < n,
    ensures
        is_permutation(r.update(a, r[b]).update(b, r[a]), n),
{
    let s = r.update(a, r[b]).update(b, r[a]);
    assert forall|v: usize| v < n implies #[trigger] s.contains(v) by {
        let i = position_of(r, v);
        if i == a {
            assert(s[b] == v);
        } else if i == b {
            assert(s[a] == v);
        } else {
            assert(s[i] == v);
        }
    }
}

/// Total cost of assignment `r` over its first `n` sources, source `i`
/// paying `cost(i, r[i])`.
pub open spec fn assignment_cost(r: Seq<usize>, cost: spec_fn(int, int) -> int, n: int) -> int
    decreases n,
{
    if n <= 0 {
        0
    } else {
        assignment_cost(r, cost, n - 1) + cost(n - 1, r[n - 1] as int)
    }
}

/// `improves` approves an exchange only when it lowers `cost`: sources `a`
/// and `b`, now at `da` and `db`, would pay less together at `db` and `da`.
pub open spec fn approves_only_improvements<F: Fn(usize, usize, usize, usize) -> bool>(
    improves: F,
    cost: spec_fn(int, int) -> int,
) -> bool {
    forall|a: usize, b: usize, da: usize, db: usize|
        #[trigger] improves.ensures((a, b, da, db), true) ==> cost(a as int, db as int) + cost(b as int, da as int)
            < cost(a as int, da as int) + cost(b as int, db as int)
}

proof fn lemma_cost_update(r: Seq<usize>, cost: spec_fn(int, int) -> int, n: int, i: int, v: usize)
    requires
        0 <= i < n <= r.len(),
    ensures
        assignment_cost(r.update(i, v), cost, n) == assignment_cost(r, cost, n) - cost(i, r[i] as int) + cost(i, v as int),
    decreases n,
{
    if n - 1 > i {
        lemma_cost_update(r, cost, n - 1, i, v);
    } else {
        lemma_cost_unchanged_prefix(r, r.update(i, v), cost, n - 1);
    }
}

proof fn lemma_cost_unchanged_prefix(r: Seq<usize>, s: Seq<usize>, cost: spec_fn(int, int) -> int, n: int)
    requires
        0 <= n <= r.len(),
        n <= s.len(),
        forall|j: int| 0 <= j < n ==> #[trigger] r[j] == s[j],
    ensures
        assignment_cost(r, cost, n) == assignment_cost(s, cost, n),
    decreases n,
{
    if n > 0 {
        lemma_cost_unchanged_prefix(r, s, cost, n - 1);
    }
}

proof fn lemma_schedule_in_range(n: int, passes: int)
    ensures
        forall|k: int|
            0 <= k < swap_schedule(n, passes).len() ==> {
                &&& (#[trigger] swap_schedule(n, passes)[k]).0 >= 1
                &&& swap_schedule(n, passes)[k].1 >= 0
                &&& swap_schedule(n, passes)[k].1 + swap_schedule(n, passes)[k].0 < n
            },
    decreases passes,
{
    if passes > 0 {
        lemma_schedule_in_range(n, passes - 1);
        let prev = swap_schedule(n, passes - 1);
        let stride = pass_stride(passes - 1);
        let tail = Seq::new(pass_len(n, stride) as nat, |j: int| (stride, j));
        assert forall|k: int| 0 <= k < swap_schedule(n, passes).len() implies {
            &&& (#[trigger] swap_schedule(n, passes)[k]).0 >= 1
            &&& swap_schedule(n, passes)[k].1 >= 0
            &&& swap_schedule(n, passes)[k].1 + swap_schedule(n, passes)[k].0 < n
        } by {
            if k < prev.len() {
                assert(swap_schedule(n, passes)[k] == prev[k]);
            } else {
                assert(swap_schedule(n, passes)[k] == tail[k - prev.len()]);
            }
        }
    }
}

proof fn lemma_swaps_never_raise_cost<F: Fn(usize, usize, usize, usize) -> bool>(
    improves: F,
    cost: spec_fn(int, int) -> int,
    start: Seq<usize>,
    order: Seq<usize>,
    steps: Seq<(int, int)>,
    decisions: Seq<bool>,
    n: int,
    k: int,
)
    requires
        0 <= k <= steps.len(),
        start.len() == n,
        is_permutation(order, n),
        approvals_given(improves, start, order, steps, decisions),
        approves_only_improvements(improves, cost),
        forall|j: int|
            0 <= j < steps.len() ==> {
                &&& (#[trigger] steps[j]).0 >= 1
                &&& steps[j].1 >= 0
                &&& steps[j].1 + steps[j].0 < n
            },
    ensures
        swapped(start, order, steps.take(k), decisions.take(k)).len() == n,
        assignment_cost(swapped(start, order, steps.take(k), decisions.take(k)), cost, n) <= assignment_cost(start, cost, n),
    decreases k,
{
    if k == 0 {
        assert(steps.take(0).len() == 0);
    } else {
        lemma_swaps_never_raise_cost(improves, cost, start, order, steps, decisions, n, k - 1);
        let st = steps.take(k);
        let dt = decisions.take(k);
        assert(st.drop_last() =~= steps.take(k - 1));
        assert(dt.drop_last() =~= decisions.take(k - 1));
        let before = swapped(start, order, steps.take(k - 1), decisions.take(k - 1));
        let step = steps[k - 1];
        assert(st.last() == step);
        assert(dt.last() == decisions[k - 1]);
        let a = order[step.1] as int;
        let b = order[step.1 + step.0] as int;
        assert(0 <= a < n && 0 <= b < n && a != b);
        if decisions[k - 1] {
            assert(swap_answered(improves, start, order, steps, decisions, k - 1));
            assert(improves.ensures((a as usize, b as usize, before[a], before[b]), true));
            let mid = before.update(a, before[b]);
            lemma_cost_update(before, cost, n, a, before[b]);
            lemma_cost_update(mid, cost, n, b, before[a]);
        }
    }
}

/// Approved swaps never make the assignment worse: when `improves` approves
/// an exchange only if it lowers a per-drone `cost`, the result costs at
/// most the Morton matching it started from.
pub proof fn lemma_approved_swaps_never_raise_cost<F: Fn(usize, usize, usize, usize) -> bool>(
    r: Seq<usize>,
    source_keys: Seq<u64>,
    destination_keys: Seq<u64>,
    improves: F,
    source_order: Seq<usize>,
    destination_order: Seq<usize>,
    matched: Seq<usize>,
    decisions: Seq<bool>,
    cost: spec_fn(int, int) -> int,
)
    requires
        explained_by(r, source_keys, destination_keys, improves, source_order, destination_order, matched, decisions),
        approves_only_improvements(improves, cost),
    ensures
        assignment_cost(r, cost, source_keys.len() as int) <= assignment_cost(matched, cost, source_keys.len() as int),
{
    let n = source_keys.len() as int;
    let steps = swap_schedule(n, 5);
    lemma_schedule_in_range(n, 5);
    lemma_swaps_never_raise_cost(improves, cost, matched, source_order, steps, decisions, n, steps.len() as int);
    assert(steps.take(steps.len() as int) =~= steps);
    assert(decisions.take(steps.len() as int) =~= decisions);
}

} // verus!
