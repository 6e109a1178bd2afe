//! The display lattice of an imported image.
//!
//! Every pixel of the downsampled raster receives a front-layer slot, and
//! drones beyond the raster size reinforce evenly spread pixels on a second
//! depth layer, so the raster shows no holes.

use vstd::prelude::*;

verus! {

/// Where one drone of an image formation sits and what it shows.
#[derive(Clone, Copy, Debug, PartialEq, Eq)]
pub struct LatticeSlot {
    /// Row-major index of the raster pixel the drone shows.
    pub raster_index: usize,
    /// Pixel column.
    pub x: u32,
    /// Pixel row, from the top.
    pub y: u32,
    /// 0 for the front layer, 1 for the reinforcing layer behind it.
    pub depth_layer: u32,
    /// Horizontal band of the raster (0..16) used as the choreography group.
    pub group: u16,
    /// The pixel's RGBA bytes, little-endian packed (red in the low byte).
    pub packed_rgba: u32,
}

/// Raster pixel and depth layer of drone `index` of `count`, for a raster of
/// `raster_len` pixels.
pub open spec fn slot_source(index: int, count: int, raster_len: int) -> (int, int) {
    if index < raster_len {
        (index, 0)
    } else {
        let extra = index - raster_len;
        let extra_count = if count - raster_len < 1 { 1 } else { count - raster_len };
        let distributed = ((extra * 2 + 1) * raster_len) / (extra_count * 2);
        (if distributed < raster_len - 1 { distributed } else { raster_len - 1 }, 1)
    }
}

/// The raster is usable: non-empty, its pixel indices and band arithmetic
/// fit in 32 bits, and the spreading of extra drones does not overflow.
pub open spec fn lattice_fits(width: u32, height: u32, count: int) -> bool {
    let raster_len = width * height;
    &&& width >= 1
    &&& height >= 1
    &&& raster_len <= 0x1_0000_0000
    &&& height <= 0x1000_0000
    &&& extras_fit(count, raster_len)
}

/// Spreading `count - raster_len` extra drones over the raster stays within
/// 64-bit arithmetic.
pub open spec fn extras_fit(count: int, raster_len: int) -> bool {
    count <= raster_len || (2 * (count - raster_len) <= u64::MAX && (2 * (count - raster_len) - 1) * raster_len
        <= u64::MAX)
}

/// The slot of drone `index` of `count` on a `width` x `height` raster.
pub open spec fn slot_spec(index: int, count: int, width: u32, height: u32, pixels: Seq<u32>) -> LatticeSlot {
    let raster_len = width * height;
    let (raster_index, layer) = slot_source(index, count, raster_len);
    let y = raster_index / (width as int);
    LatticeSlot {
        raster_index: raster_index as usize,
        x: (raster_index % (width as int)) as u32,
        y: y as u32,
        depth_layer: layer as u32,
        group: (if (y * 16) / (height as int) < 15 { (y * 16) / (height as int) } else { 15 }) as u16,
        packed_rgba: pixels[raster_index],
    }
}

/// Raster pixel and depth layer of drone `index` of `count` (see
/// [`slot_source`]).
pub fn lattice_source(index: usize, count: usize, raster_len: u64) -> (r: (u64, u32))
    requires
        index < count,
        raster_len >= 1,
        extras_fit(count as int, raster_len as int),
    ensures
        r.0 == slot_source(index as int, count as int, raster_len as int).0,
        r.1 == slot_source(index as int, count as int, raster_len as int).1,
        r.0 < raster_len,
{
    if (index as u64) < raster_len {
        (index as u64, 0)
    } else {
        let extra = index as u64 - raster_len;
        let extra_count = count as u64 - raster_len;
        let extra_count = if extra_count < 1 { 1 } else { extra_count };
        proof {
            assert((extra * 2 + 1) * raster_len <= (2 * (count - raster_len) - 1) * raster_len
                && extra * 2 + 1 <= (extra * 2 + 1) * raster_len) by (nonlinear_arith)
                requires
                    extra * 2 + 1 <= 2 * (count - raster_len) - 1,
                    raster_len >= 1,
            ;
        }
        let distributed = ((extra * 2 + 1) * raster_len) / (extra_count * 2);
        let limit = raster_len - 1;
        (if distributed < limit { distributed } else { limit }, 1)
    }
}

/// Lays `count` drones on a `width` x `height` raster whose row-major
/// pixels are `pixels`. Returns `None` for an empty raster.
pub fn display_lattice(pixels: &[u32], width: u32, height: u32, count: usize) -> (r: Option<Vec<LatticeSlot>>)
    requires
        pixels.len() == width * height,
        width == 0 || height == 0 || lattice_fits(width, height, count as int),
    ensures
        r is None <==> (width == 0 || height == 0),
        r matches Some(slots) ==> {
            &&& slots.len() == count
            &&& forall|i: int| 0 <= i < count ==> #[trigger] slots@[i] == slot_spec(i, count as int, width, height, pixels@)
        },
{
    if width == 0 || height == 0 {
        return None;
    }
    let raster_len = width as u64 * height as u64;
    assert(raster_len >= 1) by (nonlinear_arith)
        requires
            width >= 1,
            height >= 1,
            raster_len == width * height,
    ;
    let mut slots: Vec<LatticeSlot> = Vec::new();
    let mut index: usize = 0;
    while index < count
        invariant
            0 <= index <= count,
            raster_len == width * height,
            raster_len >= 1,
            pixels.len() == raster_len,
            lattice_fits(width, height, count as int),
            slots.len() == index,
            forall|i: int| 0 <= i < index ==> #[trigger] slots@[i] == slot_spec(i, count as int, width, height, pixels@),
        decreases count - index,
    {
        let (raster_index, depth_layer) = lattice_source(index, count, raster_len);
        let position = raster_index as u32;
        let x = position % width;
        let y = position / width;
        proof {
            assert(y < height) by (nonlinear_arith)
                requires
                    y == position / width,
                    position < width * height,
                    width >= 1,
            ;
        }
        let band = y * 16 / height;
        let group = if band < 15 { band as u16 } else { 15 };
        slots.push(LatticeSlot {
            raster_index: raster_index as usize,
            x,
            y,
            depth_layer,
            group,
            packed_rgba: pixels[raster_index as usize],
        });
        index = index + 1;
    }
    Some(slots)
}

/// RGBA bytes packed four at a time into little-endian words (red in the
/// low byte).
pub open spec fn packed_pixels(rgba: Seq<u8>) -> Seq<u32> {
    Seq::new(
        rgba.len() / 4,
        |i: int|
            (rgba[4 * i] + rgba[4 * i + 1] * 0x100 + rgba[4 * i + 2] * 0x1_0000 + rgba[4 * i + 3] * 0x100_0000) as u32,
    )
}

/// Packs RGBA bytes into one little-endian word per pixel.
pub fn pack_rgba(rgba: &[u8]) -> (r: Vec<u32>)
    ensures
        r@ == packed_pixels(rgba@),
{
    let mut pixels: Vec<u32> = Vec::new();
    let count = rgba.len() / 4;
    let mut i: usize = 0;
    while i < count
        invariant
            count == rgba.len() / 4,
            0 <= i <= count,
            pixels.len() == i,
            forall|k: int| 0 <= k < i ==> #[trigger] pixels@[k] == packed_pixels(rgba@)[k],
        decreases count - i,
    {
        let base = 4 * i;
        let word = rgba[base] as u32 + rgba[base + 1] as u32 * 0x100 + rgba[base + 2] as u32 * 0x1_0000
            + rgba[base + 3] as u32 * 0x100_0000;
        pixels.push(word);
        i = i + 1;
    }
    assert(pixels@ =~= packed_pixels(rgba@));
    pixels
}

/// `out` is a raster that `image::imageops::resize` with the Lanczos3 filter
/// may give for the `width` x `height` RGBA raster `src` resampled to
/// `new_width` x `new_height`. A relation, not a function: the filter's
/// `f32::sin` may differ between platforms.
pub uninterp spec fn lanczos_resampled(src: Seq<u8>, width: u32, height: u32, new_width: u32, new_height: u32, out: Seq<u8>) -> bool;

/// Resamples an RGBA raster with `image::imageops::resize` and the Lanczos3
/// filter. Claimed: the result holds `new_width * new_height` RGBA pixels
/// (the crate allocates its output buffer at the new size), and the pixels
/// are a resampling of this raster ([`lanczos_resampled`]). Their values are
/// not named as a function of the input: the filter evaluates `f32::sin`,
/// whose last bits std leaves to the platform. Also claimed: at the raster's own size the pixels are copied unchanged
/// (`resize` copies the image instead of resampling it then).
#[verifier::external_body]
fn resize_rgba(rgba: &[u8], width: u32, height: u32, new_width: u32, new_height: u32) -> (r: Vec<u8>)
    requires
        width >= 1,
        height >= 1,
        new_width >= 1,
        new_height >= 1,
        rgba.len() == width * height * 4,
        width * new_height * 16 <= isize::MAX,
        new_width * new_height * 4 <= isize::MAX,
    ensures
        r.len() == new_width * new_height * 4,
        new_width == width && new_height == height ==> r@ == rgba@,
        lanczos_resampled(rgba@, width, height, new_width, new_height, r@),
{
    let source = match image::RgbaImage::from_raw(width, height, rgba.to_vec()) {
        Some(source) => source,
        None => return Vec::new(),
    };
    image::imageops::resize(&source, new_width, new_height, image::imageops::FilterType::Lanczos3).into_raw()
}

/// The display lattice of an already resampled `width` x `height` RGBA
/// raster: its pixels packed, then laid out for `count` drones.
pub fn lattice_from_rgba(rgba: &[u8], width: u32, height: u32, count: usize) -> (r: Vec<LatticeSlot>)
    requires
        rgba.len() == width * height * 4,
        lattice_fits(width, height, count as int),
    ensures
        r.len() == count,
        forall|i: int| 0 <= i < count ==> #[trigger] r@[i] == slot_spec(i, count as int, width, height, packed_pixels(rgba@)),
{
    let pixels = pack_rgba(rgba);
    match display_lattice(&pixels, width, height, count) {
        Some(slots) => slots,
        None => Vec::new(),
    }
}

/// An image laid out as a drone display: the raster it was resampled to
/// and the slots of the drones on it.
pub struct ImageDisplay {
    /// The resampled RGBA raster, row-major.
    pub raster: Vec<u8>,
    pub slots: Vec<LatticeSlot>,
}

/// Samples a `source_width` x `source_height` RGBA image as a display of
/// `count` drones on a `width` x `height` raster: the image is resampled
/// to the raster, and the raster laid out with every pixel shown (see
/// [`lattice_from_rgba`]). `None` for an image without pixels.
pub fn image_lattice(
    rgba: &[u8],
    source_width: u32,
    source_height: u32,
    width: u32,
    height: u32,
    count: usize,
) -> (r: Option<ImageDisplay>)
    requires
        rgba.len() == source_width * source_height * 4,
        lattice_fits(width, height, count as int),
        source_width * height * 16 <= isize::MAX,
        width * height * 4 <= isize::MAX,
    ensures
        r is None <==> (source_width == 0 || source_height == 0),
        r matches Some(display) ==> {
            &&& display.raster.len() == width * height * 4
            &&& display.slots.len() == count
            &&& forall|i: int|
                0 <= i < count ==> #[trigger] display.slots@[i] == slot_spec(
                    i,
                    count as int,
                    width,
                    height,
                    packed_pixels(display.raster@),
                )
            &&& lanczos_resampled(rgba@, source_width, source_height, width, height, display.raster@)
            &&& (width == source_width && height == source_height ==> display.raster@ == rgba@)
        },
{
    if source_width == 0 || source_height == 0 {
        return None;
    }
    let raster = resize_rgba(rgba, source_width, source_height, width, height);
    let slots = lattice_from_rgba(&raster, width, height, count);
    Some(ImageDisplay { raster, slots })
}

/// Every raster pixel is shown by the front-layer drone of the same index,
/// and every drone shows a pixel of the raster: the lattice has no holes
/// when the fleet is at least as large as the raster.
pub proof fn lemma_lattice_has_no_holes(index: int, count: int, width: u32, height: u32, pixels: Seq<u32>)
    requires
        lattice_fits(width, height, count),
        0 <= index < count,
    ensures
        index < width * height ==> slot_spec(index, count, width, height, pixels).raster_index == index
            && slot_spec(index, count, width, height, pixels).depth_layer == 0,
        0 <= slot_source(index, count, width * height).0 < width * height,
        index >= width * height ==> slot_spec(index, count, width, height, pixels).depth_layer == 1,
{
    let raster_len = width * height;
    assert(raster_len >= 1) by (nonlinear_arith)
        requires
            width >= 1,
            height >= 1,
            raster_len == width * height,
    ;
    if index >= raster_len {
        let extra = index - raster_len;
        let extra_count = count - raster_len;
        assert(((extra * 2 + 1) * raster_len) / (extra_count * 2) >= 0) by (nonlinear_arith)
            requires
                extra >= 0,
                extra_count >= 1,
                raster_len >= 1,
        ;
    }
}

/// Raster height paired with `width` for a fleet of `count`: the whole rows
/// the fleet fills (at least one), as a 32-bit value.
pub open spec fn raster_height(width: u32, count: int) -> u32 {
    let rows = if count / (width as int) < 1 { 1 } else { count / (width as int) };
    (rows % 0x1_0000_0000) as u32
}

/// Lowest width tried around the aspect-ideal width.
pub open spec fn lowest_width(ideal_width: u32) -> int {
    if ideal_width <= 9 { 1 } else { ideal_width - 8 }
}

/// Highest width tried around the aspect-ideal width.
pub open spec fn highest_width(ideal_width: u32) -> int {
    if ideal_width > u32::MAX - 8 { u32::MAX as int } else { ideal_width + 8 }
}

/// `(width, height)` is a raster shape tried for `ideal_width`: its width is
/// within eight of the ideal, its height is [`raster_height`], and it uses no
/// more pixels than there are drones.
pub open spec fn is_candidate(c: (u32, u32), ideal_width: u32, count: int) -> bool {
    &&& lowest_width(ideal_width) <= c.0 <= highest_width(ideal_width)
    &&& c.1 == raster_height(c.0, count)
    &&& c.0 * c.1 <= count
}

/// The raster shapes worth scoring around `ideal_width`, by increasing
/// width: exactly the widths within eight of the ideal (and at least one)
/// whose whole-row raster fits in the fleet.
pub fn raster_candidates(ideal_width: u32, count: usize) -> (r: Vec<(u32, u32)>)
    requires
        count >= 1,
    ensures
        forall|i: int| 0 <= i < r.len() ==> #[trigger] is_candidate(r@[i], ideal_width, count as int),
        forall|i: int, j: int| 0 <= i < j < r.len() ==> r@[i].0 < r@[j].0,
        forall|w: u32|
            lowest_width(ideal_width) <= w <= highest_width(ideal_width) && w * raster_height(w, count as int)
                <= count ==> exists|i: int| 0 <= i < r.len() && #[trigger] r@[i].0 == w,
{
    let low: u32 = if ideal_width <= 9 { 1 } else { ideal_width - 8 };
    let high: u32 = if ideal_width > u32::MAX - 8 { u32::MAX } else { ideal_width + 8 };
    let mut result: Vec<(u32, u32)> = Vec::new();
    let mut width: u32 = low;
    loop
        invariant
            low == lowest_width(ideal_width),
            high == highest_width(ideal_width),
            low <= width <= high,
            count >= 1,
            forall|i: int| 0 <= i < result.len() ==> #[trigger] is_candidate(result@[i], ideal_width, count as int),
            forall|i: int| 0 <= i < result.len() ==> #[trigger] result@[i].0 < width,
            forall|i: int, j: int| 0 <= i < j < result.len() ==> result@[i].0 < result@[j].0,
            forall|w: u32|
                low <= w < width && w * raster_height(w, count as int) <= count ==> exists|i: int|
                    0 <= i < result.len() && #[trigger] result@[i].0 == w,
        decreases high - width,
    {
        let rows = count as u64 / width as u64;
        let rows = if rows < 1 { 1 } else { rows };
        let height = rows as u32;
        assert(height == rows % 0x1_0000_0000) by (bit_vector)
            requires
                height == rows as u32,
        ;
        assert(width * height <= 0xFFFF_FFFE_0000_0001) by (nonlinear_arith)
            requires
                width <= 0xFFFF_FFFF,
                height <= 0xFFFF_FFFF,
        ;
        let used = width as u64 * height as u64;
        if used <= count as u64 {
            let ghost before = result@;
            result.push((width, height));
            assert forall|w: u32|
                low <= w < width + 1 && w * raster_height(w, count as int) <= count implies exists|i: int|
                    0 <= i < result.len() && #[trigger] result@[i].0 == w by {
                if w == width {
                    assert(result@[result.len() - 1].0 == w);
                } else {
                    let i = choose|i: int| 0 <= i < before.len() && #[trigger] before[i].0 == w;
                    assert(result@[i].0 == w);
                }
            }
        }
        if width == high {
            return result;
        }
        width = width + 1;
    }
}

/// Every shape offered to the aspect scoring, like the fallback 1 x 1
/// raster, holds at most one pixel per drone, so no pixel is left without a
/// drone.
pub proof fn lemma_candidates_never_exceed_fleet(c: (u32, u32), ideal_width: u32, count: int)
    requires
        is_candidate(c, ideal_width, count),
    ensures
        c.0 >= 1,
        c.0 * c.1 <= count,
{
}

} // verus!
