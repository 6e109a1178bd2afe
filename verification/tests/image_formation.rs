use luma_swarm_studio::image_formation::{
    display_lattice, image_lattice, lattice_from_rgba, lattice_source, pack_rgba, raster_candidates, LatticeSlot,
};

#[test]
fn every_pixel_gets_a_front_drone_and_extras_reinforce_evenly() {
    let pixels: Vec<u32> = (0..12).map(|i| 0xff00_0000 | i).collect();
    let slots = display_lattice(&pixels, 4, 3, 16).unwrap();
    assert_eq!(slots.len(), 16);
    for (index, slot) in slots.iter().take(12).enumerate() {
        assert_eq!(slot.raster_index, index);
        assert_eq!(slot.depth_layer, 0);
        assert_eq!(slot.packed_rgba, pixels[index]);
    }
    let extras: Vec<usize> = slots[12..].iter().map(|slot| slot.raster_index).collect();
    assert_eq!(extras, vec![1, 4, 7, 10]);
    assert!(slots[12..].iter().all(|slot| slot.depth_layer == 1));
    assert_eq!(
        slots[14],
        LatticeSlot { raster_index: 7, x: 3, y: 1, depth_layer: 1, group: 5, packed_rgba: pixels[7] }
    );
}

#[test]
fn downsample_lattice_has_no_missing_raster_pixels() {
    let (width, height) = (120u32, 150u32);
    let pixels = vec![0x80ff_ffffu32; (width * height) as usize];
    let count = 18_500;
    let slots = display_lattice(&pixels, width, height, count).unwrap();
    let mut seen = vec![false; (width * height) as usize];
    for slot in &slots {
        assert!(slot.raster_index < seen.len());
        if slot.depth_layer == 0 {
            seen[slot.raster_index] = true;
        }
        assert!(slot.group < 16);
    }
    assert!(seen.iter().all(|&covered| covered));
}

#[test]
fn empty_raster_has_no_lattice() {
    assert!(display_lattice(&[], 0, 5, 10).is_none());
    assert!(display_lattice(&[], 7, 0, 10).is_none());
}

#[test]
fn extra_drones_are_spread_across_the_raster() {
    assert_eq!(lattice_source(3, 10, 8), (3, 0));
    assert_eq!(lattice_source(8, 10, 8), (2, 1));
    assert_eq!(lattice_source(9, 10, 8), (6, 1));
    assert_eq!(lattice_source(5, 6, 5), (2, 1));
}

#[test]
fn raster_candidates_fit_the_fleet_and_surround_the_ideal_width() {
    let candidates = raster_candidates(100, 5_000);
    assert_eq!(candidates.first(), Some(&(92, 54)));
    assert_eq!(candidates.last(), Some(&(108, 46)));
    assert_eq!(candidates.len(), 17);
    assert!(candidates.iter().all(|&(w, h)| (w as usize) * (h as usize) <= 5_000));
    assert!(candidates.windows(2).all(|pair| pair[0].0 < pair[1].0));
    let narrow = raster_candidates(3, 2);
    assert_eq!(narrow, vec![(1, 2), (2, 1)]);
}

#[test]
fn rgba_bytes_pack_little_endian() {
    assert_eq!(pack_rgba(&[1, 2, 3, 4, 255, 0, 0, 128]), vec![0x0403_0201, 0x8000_00ff]);
    assert_eq!(pack_rgba(&[9, 9, 9]), Vec::<u32>::new());
}

#[test]
fn resampled_image_blends_neighbouring_pixels() {
    let red_and_blue = [255u8, 0, 0, 255, 0, 0, 255, 255];
    let display = image_lattice(&red_and_blue, 2, 1, 1, 1, 1).unwrap();
    assert_eq!(display.raster.len(), 4);
    let slots = display.slots;
    assert_eq!(slots.len(), 1);
    let [r, g, b, a] = slots[0].packed_rgba.to_le_bytes();
    assert!(r > 0 && r < 255, "red {r}");
    assert!(b > 0 && b < 255, "blue {b}");
    assert_eq!(g, 0);
    assert_eq!(a, 255);
    assert!(image_lattice(&[], 0, 4, 1, 1, 1).is_none());
}

#[test]
fn same_size_resampling_keeps_the_pixels() {
    let pixels: Vec<u8> = (0..16u8).map(|i| i * 10).collect();
    let display = image_lattice(&pixels, 2, 2, 2, 2, 4).unwrap();
    let direct = lattice_from_rgba(&pixels, 2, 2, 4);
    assert_eq!(display.slots, direct);
    assert_eq!(display.raster, pixels);
    assert_eq!(lattice_from_rgba(&display.raster, 2, 2, 4), display.slots);
    assert_eq!(direct[3].packed_rgba, u32::from_le_bytes([120, 130, 140, 150]));
}
