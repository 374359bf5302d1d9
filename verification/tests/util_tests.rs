use bevy_pixel_map::util::{
    align_loc_to_chunk, chunk_from_location, tile_from_location, world_unit_to_pixel,
    world_unit_to_tile, IVec2,
};
use bevy_pixel_map::{CHUNK_SIZE, TILE_SIZE};

#[test]
fn sizes_are_fixed() {
    assert_eq!(CHUNK_SIZE, 16);
    assert_eq!(TILE_SIZE, 8);
}

#[test]
fn align_loc_to_chunk_floors_negative_coordinates() {
    assert_eq!(align_loc_to_chunk(-1), -1);
    assert_eq!(align_loc_to_chunk(-16), -1);
    assert_eq!(align_loc_to_chunk(-17), -2);
    assert_eq!(align_loc_to_chunk(16), 1);
}

#[test]
fn align_loc_to_chunk_around_zero() {
    assert_eq!(align_loc_to_chunk(0), 0);
    assert_eq!(align_loc_to_chunk(1), 0);
    assert_eq!(align_loc_to_chunk(15), 0);
    assert_eq!(align_loc_to_chunk(17), 1);
    assert_eq!(align_loc_to_chunk(31), 1);
    assert_eq!(align_loc_to_chunk(32), 2);
    assert_eq!(align_loc_to_chunk(-15), -1);
    assert_eq!(align_loc_to_chunk(-32), -2);
    assert_eq!(align_loc_to_chunk(-33), -3);
}

#[test]
fn align_loc_to_chunk_bounds_every_coordinate() {
    for n in -100..100 {
        let chunk = align_loc_to_chunk(n);
        assert!(chunk * 16 <= n);
        assert!(n < (chunk + 1) * 16);
    }
}

#[test]
fn align_loc_to_chunk_at_the_ends_of_the_range() {
    assert_eq!(align_loc_to_chunk(i32::MAX), 134217727);
    assert_eq!(align_loc_to_chunk(-1_000_000), -62500);
    assert_eq!(align_loc_to_chunk(-1_000_001), -62501);
}

#[test]
fn chunk_from_location_maps_each_axis() {
    assert_eq!(chunk_from_location(IVec2::new(0, 0)), IVec2::new(0, 0));
    assert_eq!(chunk_from_location(IVec2::new(15, 16)), IVec2::new(0, 1));
    assert_eq!(chunk_from_location(IVec2::new(-1, -17)), IVec2::new(-1, -2));
    assert_eq!(chunk_from_location(IVec2::new(40, -16)), IVec2::new(2, -1));
}

#[test]
fn tile_from_location_is_euclidean_remainder() {
    assert_eq!(tile_from_location(IVec2::new(0, 0)), IVec2::new(0, 0));
    assert_eq!(tile_from_location(IVec2::new(-1, -16)), IVec2::new(15, 0));
    assert_eq!(tile_from_location(IVec2::new(17, 31)), IVec2::new(1, 15));
    assert_eq!(tile_from_location(IVec2::new(0, -17)), IVec2::new(0, 15));
    assert_eq!(tile_from_location(IVec2::new(i32::MIN, i32::MAX)), IVec2::new(0, 15));
}

#[test]
fn chunk_and_tile_round_trip() {
    for chunk in -3..3 {
        for n in 0..16 {
            let loc = IVec2::new(chunk * 16 + n, (chunk + 1) * 16 + (15 - n));
            assert_eq!(tile_from_location(loc), IVec2::new(n, 15 - n));
            assert_eq!(chunk_from_location(loc), IVec2::new(chunk, chunk + 1));
        }
    }
}

#[test]
fn world_unit_to_tile_adds_the_bias() {
    assert_eq!(world_unit_to_tile(IVec2::new(0, 0)), IVec2::new(7, 7));
    assert_eq!(world_unit_to_tile(IVec2::new(1, -7)), IVec2::new(8, 0));
    assert_eq!(world_unit_to_tile(IVec2::new(-8, 25)), IVec2::new(-1, 32));
    assert_eq!(
        world_unit_to_tile(IVec2::new(i32::MAX - 7, i32::MIN)),
        IVec2::new(i32::MAX, i32::MIN + 7)
    );
}

#[test]
fn world_unit_to_pixel_follows_the_pivot() {
    // World position (0.25, 0.25): rounded up (1, 1), tile (8, 8); the
    // distance to the anchor is 0.75 units, 6 pixels.
    let (tile, pixel) = world_unit_to_pixel(IVec2::new(1, 1), IVec2::new(6, 6));
    assert_eq!(tile, IVec2::new(8, 8));
    assert_eq!(pixel, IVec2::new(2, 5));
}

#[test]
fn world_unit_to_pixel_can_leave_the_tile() {
    let (tile, pixel) = world_unit_to_pixel(IVec2::new(0, 0), IVec2::new(0, 0));
    assert_eq!(tile, IVec2::new(7, 7));
    assert_eq!(pixel, IVec2::new(8, -1));
    let (_, far) = world_unit_to_pixel(IVec2::new(0, 0), IVec2::new(8, 8));
    assert_eq!(far, IVec2::new(0, 7));
}
